//! Percentages as double-precision arithmetic gives them, computed in integers.
//!
//! A percentage is `current / total * 100` in IEEE 754 binary64: both sizes are
//! converted to a double, then divided, then multiplied, and each of these steps
//! rounds to the nearest significand of 53 bits, ties to even. A double is held here
//! as a fraction whose denominator is a power of two.
use vstd::prelude::*;

verus! {

/// The least significand of a normal double, two to the 52nd.
pub const SIGNIFICAND_MIN: u128 = 0x10_0000_0000_0000;

/// One more than the greatest significand of a double, two to the 53rd.
pub const SIGNIFICAND_END: u128 = 0x20_0000_0000_0000;

/// The integer nearest to `n / d`, the even one of two that are equally near.
pub open spec fn nearest(n: nat, d: nat) -> nat {
    let q = n / d;
    let r = n % d;
    if 2 * r < d || (2 * r == d && q % 2 == 0) {
        q
    } else {
        q + 1
    }
}

/// The double nearest to `n / d` for a quotient of at least the least significand: the
/// quotient is halved until it fits 53 bits, rounded there and scaled back.
pub open spec fn coarse(n: nat, d: nat) -> nat
    decreases n - d,
{
    if d > 0 && n >= d * SIGNIFICAND_END {
        2 * coarse(n, 2 * d)
    } else {
        nearest(n, d)
    }
}

/// The double nearest to the integer `n`.
pub open spec fn as_double(n: nat) -> nat {
    coarse(n, 1)
}

/// The double nearest to `n / d`, as a fraction: a quotient below the least significand
/// is doubled until it has 53 bits, rounded there and scaled back.
pub open spec fn quotient(n: nat, d: nat) -> (nat, nat)
    decreases
            (if n < d * SIGNIFICAND_MIN {
                d * SIGNIFICAND_MIN - n
            } else {
                0
            }),
{
    if n == 0 || d == 0 {
        (0, 1)
    } else if n < d * SIGNIFICAND_MIN {
        let (m, q) = quotient(2 * n, d);
        (m, 2 * q)
    } else {
        (coarse(n, d), 1)
    }
}

/// The double `current / total * 100`, as a fraction. The product needs rounding in its
/// numerator only, because the denominator is a power of two.
pub open spec fn percentage(current: nat, total: nat) -> (nat, nat) {
    let (m, q) = quotient(as_double(current), as_double(total));
    (as_double(100 * m), q)
}

/// The percentage with its fractional part cut off, at most 65535.
pub open spec fn truncated_percent(current: nat, total: nat) -> nat {
    let (p, q) = percentage(current, total);
    if p / q > u16::MAX {
        u16::MAX as nat
    } else {
        p / q
    }
}

/// The percentage rounded to the nearest integer, halves upward, at most 65535.
pub open spec fn rounded_percent(current: nat, total: nat) -> nat {
    let (p, q) = percentage(current, total);
    if (2 * p + q) / (2 * q) > u16::MAX {
        u16::MAX as nat
    } else {
        (2 * p + q) / (2 * q)
    }
}

/// A download of which all bytes are there is at a hundred percent, cut off or rounded.
pub proof fn law_complete_is_hundred(total: nat)
    requires
        total > 0,
    ensures
        truncated_percent(total, total) == 100,
        rounded_percent(total, total) == 100,
{
    lemma_coarse(total, 1);
    let d = as_double(total);
    assert(d * 1 == d);
    assert(is_power(SIGNIFICAND_MIN as nat)) by {
        reveal_with_fuel(is_power, 54);
    }
    lemma_ratio_of_equals(d, 1, SIGNIFICAND_MIN as nat);
    let q = SIGNIFICAND_MIN as nat;
    assert(quotient(d, d) == (q, q));
    reveal_with_fuel(coarse, 7);
    assert(nearest(100 * q, 64) * 64 == 100 * q);
    assert(as_double(100 * q) == 100 * q);
    assert(percentage(total, total) == (100 * q, q));
    let p = 100 * q;
    assert(p / q == 100 && (2 * p + q) / (2 * q) == 100) by (nonlinear_arith)
        requires
            q > 0,
            p == 100 * q,
    ;
}

/// A download of which nothing is there is at zero percent.
pub proof fn law_nothing_is_zero(total: nat)
    requires
        total > 0,
    ensures
        truncated_percent(0, total) == 0,
        rounded_percent(0, total) == 0,
{
    assert(as_double(0) == 0);
    assert(percentage(0, total) == (0nat, 1nat));
    let (p, q) = percentage(0, total);
    assert(p / q == 0 && (2 * p + q) / (2 * q) == 0) by (nonlinear_arith)
        requires
            q == 1,
            p == 0,
    ;
}

/// More bytes of the same download are never a smaller percentage, cut off or rounded.
pub proof fn law_percentage_never_falls(c1: nat, c2: nat, total: nat)
    requires
        total > 0,
        c1 <= c2,
    ensures
        truncated_percent(c1, total) <= truncated_percent(c2, total),
        rounded_percent(c1, total) <= rounded_percent(c2, total),
{
    let d = as_double(total);
    lemma_coarse(total, 1);
    assert(d * 1 == d);
    let (n1, n2) = (as_double(c1), as_double(c2));
    lemma_coarse_grows(c1, c2, 1);
    let (p1, q1) = percentage(c1, total);
    let (p2, q2) = percentage(c2, total);
    let (m1, _) = quotient(n1, d);
    let (m2, _) = quotient(n2, d);
    lemma_quotient_positive(n1, d);
    lemma_quotient_positive(n2, d);
    if n1 == 0 {
        assert(p1 == 0) by {
            assert(as_double(0) == 0);
        }
        assert(p1 * q2 <= p2 * q1) by (nonlinear_arith)
            requires
                p1 == 0,
        ;
    } else {
        lemma_quotient_grows(n1, n2, d);
        if q1 == q2 {
            lemma_coarse_grows(100 * m1, 100 * m2, 1);
            assert(p1 * q2 <= p2 * q1) by (nonlinear_arith)
                requires
                    p1 <= p2,
                    q1 == q2,
            ;
        } else {
            let high = 100 * SIGNIFICAND_END as nat;
            let low = 100 * SIGNIFICAND_MIN as nat;
            lemma_hundredfold();
            lemma_coarse_grows(100 * m1, high, 1);
            lemma_coarse_grows(low, 100 * m2, 1);
            assert(p1 * q2 <= p2 * q1) by (nonlinear_arith)
                requires
                    p1 <= 2 * low,
                    p2 >= low,
                    q1 >= 2 * q2,
            ;
        }
    }
    lemma_whole_parts(p1, q1, p2, q2);
}

proof fn lemma_hundredfold()
    ensures
        as_double(100 * SIGNIFICAND_MIN as nat) == 100 * SIGNIFICAND_MIN,
        as_double(100 * SIGNIFICAND_END as nat) == 100 * SIGNIFICAND_END,
{
    reveal_with_fuel(coarse, 8);
    assert(nearest(100 * SIGNIFICAND_MIN as nat, 64) * 64 == 100 * SIGNIFICAND_MIN);
    assert(nearest(100 * SIGNIFICAND_END as nat, 128) * 128 == 100 * SIGNIFICAND_END);
}

proof fn lemma_whole_parts(p1: nat, q1: nat, p2: nat, q2: nat)
    requires
        q1 > 0,
        q2 > 0,
        p1 * q2 <= p2 * q1,
    ensures
        p1 / q1 <= p2 / q2,
        (2 * p1 + q1) / (2 * q1) <= (2 * p2 + q2) / (2 * q2),
{
    lemma_whole_part(p1, q1, p2, q2);
    assert((2 * p1 + q1) * (2 * q2) <= (2 * p2 + q2) * (2 * q1)) by (nonlinear_arith)
        requires
            p1 * q2 <= p2 * q1,
    ;
    lemma_whole_part(2 * p1 + q1, 2 * q1, 2 * p2 + q2, 2 * q2);
}

proof fn lemma_whole_part(p1: nat, q1: nat, p2: nat, q2: nat)
    requires
        q1 > 0,
        q2 > 0,
        p1 * q2 <= p2 * q1,
    ensures
        p1 / q1 <= p2 / q2,
{
    let a = p1 / q1;
    let b = p2 / q2;
    assert(a * q1 <= p1) by (nonlinear_arith)
        requires
            a == p1 / q1,
            q1 > 0,
    ;
    assert(p2 < (b + 1) * q2) by (nonlinear_arith)
        requires
            b == p2 / q2,
            q2 > 0,
    ;
    assert(a < b + 1) by (nonlinear_arith)
        requires
            a * q1 <= p1,
            p2 < (b + 1) * q2,
            p1 * q2 <= p2 * q1,
            q1 > 0,
            q2 > 0,
    ;
}

proof fn lemma_nearest_grows(n1: nat, n2: nat, d: nat)
    requires
        d > 0,
        n1 <= n2,
    ensures
        nearest(n1, d) <= nearest(n2, d),
{
    let (a, r) = (n1 / d, n1 % d);
    let (b, t) = (n2 / d, n2 % d);
    assert(n1 == a * d + r && 0 <= r < d) by (nonlinear_arith)
        requires
            d > 0,
            a == n1 / d,
            r == n1 % d,
    ;
    assert(n2 == b * d + t && 0 <= t < d) by (nonlinear_arith)
        requires
            d > 0,
            b == n2 / d,
            t == n2 % d,
    ;
    assert(a <= b) by (nonlinear_arith)
        requires
            n1 == a * d + r,
            n2 == b * d + t,
            0 <= r,
            t < d,
            n1 <= n2,
            d > 0,
    ;
    if a == b {
        assert(r <= t);
    }
}

/// A quotient between two multiples of `d` rounds to no less and no more than them.
proof fn lemma_nearest_between(n: nat, d: nat, low: nat, high: nat)
    requires
        d > 0,
        d * low <= n <= d * high,
    ensures
        low <= nearest(n, d) <= high,
{
    lemma_nearest_grows(d * low, n, d);
    lemma_nearest_grows(n, d * high, d);
    lemma_nearest_multiple(d, low);
    lemma_nearest_multiple(d, high);
}

proof fn lemma_nearest_multiple(d: nat, k: nat)
    requires
        d > 0,
    ensures
        nearest(d * k, d) == k,
{
    vstd::arithmetic::div_mod::lemma_div_multiples_vanish(k as int, d as int);
    vstd::arithmetic::div_mod::lemma_mod_multiples_basic(k as int, d as int);
    assert(d * k == k * d) by (nonlinear_arith);
}

proof fn lemma_coarse_least(n: nat, d: nat)
    requires
        d > 0,
        n >= d * SIGNIFICAND_MIN,
    ensures
        coarse(n, d) >= SIGNIFICAND_MIN,
    decreases n - d,
{
    if n >= d * SIGNIFICAND_END {
        assert(n - 2 * d < n - d && n >= (2 * d) * SIGNIFICAND_MIN && n >= 2 * d)
            by (nonlinear_arith)
            requires
                n >= d * SIGNIFICAND_END,
                d > 0,
        ;
        lemma_coarse_least(n, 2 * d);
    } else {
        lemma_nearest_between(n, d, SIGNIFICAND_MIN as nat, SIGNIFICAND_END as nat);
    }
}

proof fn lemma_coarse_grows(n1: nat, n2: nat, d: nat)
    requires
        d > 0,
        n1 <= n2,
    ensures
        coarse(n1, d) <= coarse(n2, d),
    decreases
            (if n2 > d {
                n2 - d
            } else {
                0
            }),
{
    if n2 >= d * SIGNIFICAND_END {
        assert(n2 >= 2 * d && n2 >= (2 * d) * SIGNIFICAND_MIN) by (nonlinear_arith)
            requires
                n2 >= d * SIGNIFICAND_END,
                d > 0,
        ;
        if n1 >= d * SIGNIFICAND_END {
            lemma_coarse_grows(n1, n2, 2 * d);
        } else {
            assert(d * 0 <= n1);
            lemma_nearest_between(n1, d, 0, SIGNIFICAND_END as nat);
            lemma_coarse_least(n2, 2 * d);
        }
    } else {
        lemma_nearest_grows(n1, n2, d);
    }
}

proof fn lemma_quotient_positive(n: nat, d: nat)
    ensures
        quotient(n, d).1 > 0,
        n > 0 && d > 0 ==> quotient(n, d).0 >= SIGNIFICAND_MIN,
        n > 0 && d > 0 && n < d * SIGNIFICAND_END ==> quotient(n, d).0 <= SIGNIFICAND_END,
    decreases
            (if n < d * SIGNIFICAND_MIN {
                d * SIGNIFICAND_MIN - n
            } else {
                0
            }),
{
    if n == 0 || d == 0 {
    } else if n < d * SIGNIFICAND_MIN {
        lemma_quotient_positive(2 * n, d);
        assert(2 * n < d * SIGNIFICAND_END) by (nonlinear_arith)
            requires
                n < d * SIGNIFICAND_MIN,
        ;
    } else {
        lemma_coarse_least(n, d);
        if n < d * SIGNIFICAND_END {
            lemma_nearest_between(n, d, SIGNIFICAND_MIN as nat, SIGNIFICAND_END as nat);
        }
    }
}

/// The quotient of a greater numerator has a greater significand at the same scale, or is
/// at a greater scale.
proof fn lemma_quotient_grows(n1: nat, n2: nat, d: nat)
    requires
        d > 0,
        0 < n1 <= n2,
    ensures
        ({
            let (m1, q1) = quotient(n1, d);
            let (m2, q2) = quotient(n2, d);
            ||| q1 == q2 && m1 <= m2
            ||| q1 >= 2 * q2 && m1 <= SIGNIFICAND_END && m2 >= SIGNIFICAND_MIN
        }),
    decreases
            (if n1 < d * SIGNIFICAND_MIN {
                d * SIGNIFICAND_MIN - n1
            } else {
                0
            }),
{
    lemma_quotient_positive(n1, d);
    lemma_quotient_positive(n2, d);
    if n1 < d * SIGNIFICAND_MIN {
        if n2 < d * SIGNIFICAND_MIN {
            lemma_quotient_grows(2 * n1, 2 * n2, d);
        } else {
            lemma_quotient_positive(2 * n1, d);
            assert(n1 < d * SIGNIFICAND_END) by (nonlinear_arith)
                requires
                    n1 < d * SIGNIFICAND_MIN,
            ;
        }
    } else {
        lemma_coarse_grows(n1, n2, d);
    }
}

proof fn lemma_ratio_of_equals(d: nat, scale: nat, rest: nat)
    requires
        d > 0,
        scale > 0,
        scale * rest == SIGNIFICAND_MIN,
        is_power(rest),
    ensures
        quotient(d * scale, d) == (SIGNIFICAND_MIN as nat, rest),
    decreases rest,
{
    let n = d * scale;
    if rest == 1 {
        assert(scale * 1 == scale);
        assert(n == d * SIGNIFICAND_MIN);
        assert(d * SIGNIFICAND_MIN < d * SIGNIFICAND_END) by (nonlinear_arith)
            requires
                d > 0,
        ;
        vstd::arithmetic::div_mod::lemma_div_multiples_vanish(SIGNIFICAND_MIN as int, d as int);
        vstd::arithmetic::div_mod::lemma_mod_multiples_basic(SIGNIFICAND_MIN as int, d as int);
        assert(n == SIGNIFICAND_MIN * d) by (nonlinear_arith)
            requires
                n == d * SIGNIFICAND_MIN,
        ;
        assert(nearest(n, d) == SIGNIFICAND_MIN);
        assert(n > 0) by (nonlinear_arith)
            requires
                n == d * SIGNIFICAND_MIN,
                d > 0,
        ;
    } else {
        let half = rest / 2;
        assert(rest == 2 * half);
        assert(2 * n == d * (2 * scale)) by (nonlinear_arith)
            requires
                n == d * scale,
        ;
        assert((2 * scale) * half == scale * rest) by (nonlinear_arith)
            requires
                rest == 2 * half,
        ;
        lemma_ratio_of_equals(d, 2 * scale, half);
        assert(0 < n < d * SIGNIFICAND_MIN) by (nonlinear_arith)
            requires
                n == d * scale,
                scale * rest == SIGNIFICAND_MIN,
                rest >= 2,
                scale > 0,
                d > 0,
        ;
    }
}

/// Whether `n` is a power of two.
pub open spec fn is_power(n: nat) -> bool
    decreases n,
{
    n == 1 || (n > 1 && n % 2 == 0 && is_power(n / 2))
}

proof fn lemma_nearest(n: nat, d: nat)
    requires
        d > 0,
        n >= d,
    ensures
        1 <= nearest(n, d),
        nearest(n, d) * d <= 2 * n,
{
    let q = n / d;
    let r = n % d;
    assert(n == q * d + r && 0 <= r < d && q >= 1) by (nonlinear_arith)
        requires
            d > 0,
            n >= d,
            q == n / d,
            r == n % d,
    ;
    assert((q + 1) * d == q * d + d) by (nonlinear_arith);
}

proof fn lemma_coarse(n: nat, d: nat)
    requires
        d > 0,
        n >= d,
    ensures
        1 <= coarse(n, d),
        coarse(n, d) * d <= 2 * n,
    decreases n - d,
{
    if n >= d * SIGNIFICAND_END {
        lemma_coarse(n, 2 * d);
        let c = coarse(n, 2 * d);
        assert((2 * c) * d == c * (2 * d)) by (nonlinear_arith);
    } else {
        lemma_nearest(n, d);
    }
}

fn nearest_exec(n: u128, d: u128) -> (m: u128)
    requires
        0 < d < 0x8000_0000_0000_0000_0000_0000_0000_0000,
        n < 0x8000_0000_0000_0000_0000_0000_0000_0000,
    ensures
        m == nearest(n as nat, d as nat),
{
    let q: u128 = n / d;
    let r: u128 = n % d;
    assert(q <= n) by (nonlinear_arith)
        requires
            d > 0,
            q == n / d,
    ;
    if 2 * r < d || (2 * r == d && q % 2 == 0) {
        q
    } else {
        q + 1
    }
}

fn coarse_exec(n: u128, d: u128) -> (m: u128)
    requires
        0 < d <= n < 0x100_0000_0000_0000_0000_0000_0000_0000,
        d < 0x10_0000_0000_0000_0000,
    ensures
        m == coarse(n as nat, d as nat),
    decreases n - d,
{
    if n >= d * SIGNIFICAND_END {
        let half: u128 = coarse_exec(n, 2 * d);
        proof {
            lemma_coarse(n as nat, 2 * d as nat);
        }
        assert(half <= n) by (nonlinear_arith)
            requires
                half * (2 * d) <= 2 * n,
                d > 0,
        ;
        2 * half
    } else {
        nearest_exec(n, d)
    }
}

/// The double nearest to `n`.
fn as_double_exec(n: u128) -> (m: u128)
    requires
        n < 0x1_0000_0000_0000_0000_0000,
    ensures
        m == as_double(n as nat),
        n > 0 ==> 1 <= m <= 2 * n,
        n == 0 ==> m == 0,
{
    if n == 0 {
        return 0;
    }
    proof {
        lemma_coarse(n as nat, 1);
    }
    coarse_exec(n, 1)
}

/// The double nearest to `n / d`, as a fraction.
fn quotient_exec(n: u128, d: u128) -> (f: (u128, u128))
    requires
        n < 0x2_0000_0000_0000_0000,
        0 < d < 0x2_0000_0000_0000_0000,
    ensures
        (f.0 as nat, f.1 as nat) == quotient(n as nat, d as nat),
        f.0 <= 0x4_0000_0000_0000_0000,
        0 < f.1 < 0x80_0000_0000_0000_0000_0000_0000_0000,
{
    if n == 0 {
        return (0, 1);
    }
    let mut num: u128 = n;
    let mut q: u128 = 1;
    while num < d * SIGNIFICAND_MIN
        invariant
            0 < n <= num,
            0 < d < 0x2_0000_0000_0000_0000,
            num < 0x2_0000_0000_0000_0000 || num < d * SIGNIFICAND_END,
            q > 0,
            num == n * q,
            quotient(n as nat, d as nat) == ({
                let (m, k) = quotient(num as nat, d as nat);
                (m, k * q as nat)
            }),
        decreases
                (if num < d * SIGNIFICAND_MIN {
                    d * SIGNIFICAND_MIN - num
                } else {
                    0
                }),
    {
        assert(q <= num) by (nonlinear_arith)
            requires
                num == n * q,
                n > 0,
                q > 0,
        ;
        proof {
            let (m, k) = quotient(2 * num as nat, d as nat);
            assert((2 * k) * q == k * (2 * q)) by (nonlinear_arith);
            assert(n * (2 * q) == 2 * (n * q)) by (nonlinear_arith);
        }
        num = 2 * num;
        q = 2 * q;
    }
    assert(q <= num) by (nonlinear_arith)
        requires
            num == n * q,
            n > 0,
            q > 0,
    ;
    let m: u128 = coarse_exec(num, d);
    proof {
        lemma_coarse(num as nat, d as nat);
        let (c, k) = quotient(num as nat, d as nat);
        assert(k == 1);
        assert(k * (q as nat) == q) by (nonlinear_arith)
            requires
                k == 1,
        ;
        if num < d * SIGNIFICAND_END {
            assert(m <= 2 * SIGNIFICAND_END) by (nonlinear_arith)
                requires
                    m * d <= 2 * num,
                    num < d * SIGNIFICAND_END,
                    d > 0,
            ;
        } else {
            assert(m <= 2 * num) by (nonlinear_arith)
                requires
                    m * d <= 2 * num,
                    d > 0,
            ;
        }
    }
    (m, q)
}

/// The double `current / total * 100`, as a fraction.
fn percentage_exec(current: u64, total: u64) -> (f: (u128, u128))
    requires
        total > 0,
    ensures
        (f.0 as nat, f.1 as nat) == percentage(current as nat, total as nat),
        f.0 < 0x1_0000_0000_0000_0000_0000,
        0 < f.1 < 0x80_0000_0000_0000_0000_0000_0000_0000,
{
    let a: u128 = as_double_exec(current as u128);
    let b: u128 = as_double_exec(total as u128);
    let (m, q): (u128, u128) = quotient_exec(a, b);
    let p: u128 = as_double_exec(100 * m);
    (p, q)
}

/// How much of `total` is done, as a percentage with its fractional part cut off.
pub fn percent_truncated(current: u64, total: u64) -> (percent: u16)
    requires
        total > 0,
    ensures
        percent == truncated_percent(current as nat, total as nat),
{
    let (p, q): (u128, u128) = percentage_exec(current, total);
    let v: u128 = p / q;
    if v > 65535 {
        65535
    } else {
        v as u16
    }
}

/// How much of `total` is done, as a percentage rounded to the nearest integer.
pub fn percent_rounded(current: u64, total: u64) -> (percent: u16)
    requires
        total > 0,
    ensures
        percent == rounded_percent(current as nat, total as nat),
{
    let (p, q): (u128, u128) = percentage_exec(current, total);
    let v: u128 = (2 * p + q) / (2 * q);
    if v > 65535 {
        65535
    } else {
        v as u16
    }
}

/// A percentage is the exact one, up to one part in two to the 50th: cut off, it is the
/// greatest integer that is not above it, and rounded, an integer at most a half away.
pub proof fn law_percentages_are_exact(current: nat, total: nat)
    requires
        total > 0,
    ensures
        ({
            let t = truncated_percent(current, total);
            let r = rounded_percent(current, total);
            let k = 0x4_0000_0000_0000nat;
            &&& k * (t * total) <= (k + 1) * (100 * current)
            &&& t < u16::MAX ==> k * (100 * current) <= (k + 1) * ((t + 1) * total)
            &&& k * (2 * r * total) <= (k + 1) * (200 * current) + k * total
            &&& r < u16::MAX ==> k * (200 * current) <= (k + 1) * ((2 * r + 1) * total)
        }),
{
    let (p, q) = percentage(current, total);
    lemma_percentage_near(current, total);
    let k = 0x4_0000_0000_0000nat;
    let whole = p / q;
    let half = (2 * p + q) / (2 * q);
    assert(whole * q <= p && p < (whole + 1) * q) by (nonlinear_arith)
        requires
            q > 0,
            whole == p / q,
    ;
    assert(half * (2 * q) <= 2 * p + q && 2 * p + q < (half + 1) * (2 * q)) by (nonlinear_arith)
        requires
            q > 0,
            half == (2 * p + q) / (2 * q),
    ;
    lemma_truncated_near(current, total, p, q, whole, k);
    lemma_rounded_near(current, total, p, q, half, k);
    let t = truncated_percent(current, total);
    let r = rounded_percent(current, total);
    if whole > u16::MAX {
        assert(k * (t * total) <= k * (whole * total)) by (nonlinear_arith)
            requires
                t <= whole,
        ;
    }
    if half > u16::MAX {
        assert(k * (2 * r * total) <= k * (2 * half * total)) by (nonlinear_arith)
            requires
                r <= half,
        ;
    }
}

proof fn lemma_truncated_near(c: nat, t: nat, p: nat, q: nat, whole: nat, k: nat)
    requires
        q > 0,
        k * (p * t) <= (k + 1) * (100 * c * q),
        k * (100 * c * q) <= (k + 1) * (p * t),
        whole * q <= p,
        p < (whole + 1) * q,
    ensures
        k * (whole * t) <= (k + 1) * (100 * c),
        k * (100 * c) <= (k + 1) * ((whole + 1) * t),
{
    assert((k * (whole * t)) * q <= ((k + 1) * (100 * c)) * q) by (nonlinear_arith)
        requires
            k * (p * t) <= (k + 1) * (100 * c * q),
            whole * q <= p,
    ;
    assert(k * (whole * t) <= (k + 1) * (100 * c)) by (nonlinear_arith)
        requires
            (k * (whole * t)) * q <= ((k + 1) * (100 * c)) * q,
            q > 0,
    ;
    assert((k * (100 * c)) * q <= ((k + 1) * ((whole + 1) * t)) * q) by (nonlinear_arith)
        requires
            k * (100 * c * q) <= (k + 1) * (p * t),
            p <= (whole + 1) * q,
    ;
    assert(k * (100 * c) <= (k + 1) * ((whole + 1) * t)) by (nonlinear_arith)
        requires
            (k * (100 * c)) * q <= ((k + 1) * ((whole + 1) * t)) * q,
            q > 0,
    ;
}

proof fn lemma_rounded_near(c: nat, t: nat, p: nat, q: nat, half: nat, k: nat)
    requires
        q > 0,
        k * (p * t) <= (k + 1) * (100 * c * q),
        k * (100 * c * q) <= (k + 1) * (p * t),
        half * (2 * q) <= 2 * p + q,
        2 * p + q < (half + 1) * (2 * q),
    ensures
        k * (2 * half * t) <= (k + 1) * (200 * c) + k * t,
        k * (200 * c) <= (k + 1) * ((2 * half + 1) * t),
{
    assert((k * (2 * half * t)) * q <= ((k + 1) * (200 * c) + k * t) * q) by {
        assert(k * t * (half * (2 * q)) <= k * t * (2 * p + q)) by (nonlinear_arith)
            requires
                half * (2 * q) <= 2 * p + q,
        ;
        assert(k * t * (half * (2 * q)) == (k * (2 * half * t)) * q) by (nonlinear_arith);
        assert(k * t * (2 * p + q) == 2 * (k * (p * t)) + k * t * q) by (nonlinear_arith);
        assert(((k + 1) * (200 * c) + k * t) * q == 2 * ((k + 1) * (100 * c * q)) + k * t * q)
            by (nonlinear_arith);
    }
    assert(k * (2 * half * t) <= (k + 1) * (200 * c) + k * t) by (nonlinear_arith)
        requires
            (k * (2 * half * t)) * q <= ((k + 1) * (200 * c) + k * t) * q,
            q > 0,
    ;
    assert((k * (200 * c)) * q <= ((k + 1) * ((2 * half + 1) * t)) * q) by {
        assert(2 * p <= (2 * half + 1) * q) by (nonlinear_arith)
            requires
                2 * p + q < (half + 1) * (2 * q),
        ;
        assert((k + 1) * t * (2 * p) <= (k + 1) * t * ((2 * half + 1) * q)) by (nonlinear_arith)
            requires
                2 * p <= (2 * half + 1) * q,
        ;
        assert((k + 1) * t * (2 * p) == 2 * ((k + 1) * (p * t))) by (nonlinear_arith);
        assert((k + 1) * t * ((2 * half + 1) * q) == ((k + 1) * ((2 * half + 1) * t)) * q)
            by (nonlinear_arith);
        assert((k * (200 * c)) * q == 2 * (k * (100 * c * q))) by (nonlinear_arith);
    }
    assert(k * (200 * c) <= (k + 1) * ((2 * half + 1) * t)) by (nonlinear_arith)
        requires
            (k * (200 * c)) * q <= ((k + 1) * ((2 * half + 1) * t)) * q,
            q > 0,
    ;
}

/// Whether `a` differs from `b` by at most one part in two to the 53rd of `b`.
spec fn near(a: nat, b: nat) -> bool {
    &&& a * SIGNIFICAND_END <= b * SIGNIFICAND_END + b
    &&& b * SIGNIFICAND_END <= a * SIGNIFICAND_END + b
}

proof fn lemma_coarse_near(n: nat, d: nat)
    requires
        d > 0,
        n >= d * SIGNIFICAND_MIN,
    ensures
        near(coarse(n, d) * d, n),
    decreases n - d,
{
    if n >= d * SIGNIFICAND_END {
        assert(n >= (2 * d) * SIGNIFICAND_MIN && n >= 2 * d) by (nonlinear_arith)
            requires
                n >= d * SIGNIFICAND_END,
                d > 0,
        ;
        lemma_coarse_near(n, 2 * d);
        let c = coarse(n, 2 * d);
        assert((2 * c) * d == c * (2 * d)) by (nonlinear_arith);
    } else {
        let q = n / d;
        let r = n % d;
        assert(n == q * d + r && 0 <= r < d) by (nonlinear_arith)
            requires
                d > 0,
                q == n / d,
                r == n % d,
        ;
        let k = nearest(n, d);
        assert((q + 1) * d == q * d + d) by (nonlinear_arith);
        assert(2 * (k * d) <= 2 * n + d && 2 * n <= 2 * (k * d) + d);
        assert(d * SIGNIFICAND_MIN <= n);
        let a = k * d;
        assert(a * SIGNIFICAND_END == (2 * a) * SIGNIFICAND_MIN);
        assert(n * SIGNIFICAND_END == (2 * n) * SIGNIFICAND_MIN);
        assert((2 * a) * SIGNIFICAND_MIN <= (2 * n + d) * SIGNIFICAND_MIN);
        assert((2 * n) * SIGNIFICAND_MIN <= (2 * a + d) * SIGNIFICAND_MIN);
    }
}

proof fn lemma_double_near(n: nat)
    ensures
        near(as_double(n), n),
        n > 0 ==> as_double(n) > 0,
{
    if n >= SIGNIFICAND_MIN {
        lemma_coarse_near(n, 1);
        assert(coarse(n, 1) * 1 == coarse(n, 1));
    } else {
        assert(nearest(n, 1) == n);
        assert(as_double(n) == n);
    }
    if n > 0 {
        lemma_coarse(n, 1);
    }
}

proof fn lemma_quotient_near(n: nat, d: nat)
    requires
        d > 0,
    ensures
        near(quotient(n, d).0 * d, n * quotient(n, d).1),
    decreases
            (if n < d * SIGNIFICAND_MIN {
                d * SIGNIFICAND_MIN - n
            } else {
                0
            }),
{
    if n == 0 {
        assert(quotient(n, d) == (0nat, 1nat));
        assert(0 * d == 0) by (nonlinear_arith);
    } else if n < d * SIGNIFICAND_MIN {
        lemma_quotient_near(2 * n, d);
        let (m, q) = quotient(2 * n, d);
        assert(quotient(n, d) == (m, 2 * q));
        assert((2 * n) * q == n * (2 * q)) by (nonlinear_arith);
    } else {
        lemma_coarse_near(n, d);
        assert(n * 1 == n);
    }
}

proof fn lemma_percentage_near(current: nat, total: nat)
    requires
        total > 0,
    ensures
        ({
            let (p, q) = percentage(current, total);
            let k = 0x4_0000_0000_0000nat;
            &&& q > 0
            &&& k * (p * total) <= (k + 1) * (100 * current * q)
            &&& k * (100 * current * q) <= (k + 1) * (p * total)
        }),
{
    let c = as_double(current);
    let d = as_double(total);
    lemma_double_near(current);
    lemma_double_near(total);
    let (m, q) = quotient(c, d);
    lemma_quotient_positive(c, d);
    lemma_quotient_near(c, d);
    let p = as_double(100 * m);
    lemma_double_near(100 * m);
    let u = SIGNIFICAND_END as nat;
    lemma_chain_above(p, 100 * m, m, d, c, q, current, total, u);
    lemma_chain_below(p, 100 * m, m, d, c, q, current, total, u);
    let k = 0x4_0000_0000_0000nat;
    let x = p * total;
    let y = 100 * current * q;
    lemma_scale_above(x, y, k, u);
    lemma_scale_below(x, y, k, u);
}

proof fn lemma_chain_above(
    p: nat,
    h: nat,
    m: nat,
    d: nat,
    c: nat,
    q: nat,
    current: nat,
    total: nat,
    u: nat,
)
    requires
        u > 1,
        h == 100 * m,
        p * u <= h * u + h,
        (m * d) * u <= (c * q) * u + c * q,
        c * u <= current * u + current,
        total * u <= d * u + total,
    ensures
        (p * total) * (u * u * (u - 1)) <= (100 * current * q) * ((u + 1) * (u + 1) * (u + 1)),
{
    let v = (u + 1) as nat;
    let w = (u - 1) as nat;
    assert(p * u <= h * v) by (nonlinear_arith)
        requires
            p * u <= h * u + h,
            v == u + 1,
    ;
    assert((m * d) * u <= (c * q) * v) by (nonlinear_arith)
        requires
            (m * d) * u <= (c * q) * u + c * q,
            v == u + 1,
    ;
    assert(c * u <= current * v) by (nonlinear_arith)
        requires
            c * u <= current * u + current,
            v == u + 1,
    ;
    assert(total * w <= d * u) by (nonlinear_arith)
        requires
            total * u <= d * u + total,
            w == u - 1,
    ;
    assert((p * total) * (u * u * w) == (p * u * u) * (total * w)) by (nonlinear_arith);
    assert((p * u * u) * (total * w) <= (p * u * u) * (d * u)) by (nonlinear_arith)
        requires
            total * w <= d * u,
    ;
    assert((p * u * u) * (d * u) == (p * u) * (d * u * u)) by (nonlinear_arith);
    assert((p * u) * (d * u * u) <= (h * v) * (d * u * u)) by (nonlinear_arith)
        requires
            p * u <= h * v,
    ;
    assert((h * v) * (d * u * u) == 100 * v * u * ((m * d) * u)) by (nonlinear_arith)
        requires
            h == 100 * m,
    ;
    assert(100 * v * u * ((m * d) * u) <= 100 * v * u * ((c * q) * v)) by (nonlinear_arith)
        requires
            (m * d) * u <= (c * q) * v,
    ;
    assert(100 * v * u * ((c * q) * v) == 100 * v * v * q * (c * u)) by (nonlinear_arith);
    assert(100 * v * v * q * (c * u) <= 100 * v * v * q * (current * v)) by (nonlinear_arith)
        requires
            c * u <= current * v,
    ;
    assert(100 * v * v * q * (current * v) == (100 * current * q) * (v * v * v))
        by (nonlinear_arith);
}

proof fn lemma_chain_below(
    p: nat,
    h: nat,
    m: nat,
    d: nat,
    c: nat,
    q: nat,
    current: nat,
    total: nat,
    u: nat,
)
    requires
        u > 1,
        h == 100 * m,
        h * u <= p * u + h,
        (c * q) * u <= (m * d) * u + c * q,
        current * u <= c * u + current,
        d * u <= total * u + total,
    ensures
        (100 * current * q) * ((u - 1) * (u - 1) * (u - 1)) <= (p * total) * (u * u * (u + 1)),
{
    let v = (u + 1) as nat;
    let w = (u - 1) as nat;
    assert(h * w <= p * u) by (nonlinear_arith)
        requires
            h * u <= p * u + h,
            w == u - 1,
    ;
    assert((c * q) * w <= (m * d) * u) by (nonlinear_arith)
        requires
            (c * q) * u <= (m * d) * u + c * q,
            w == u - 1,
    ;
    assert(current * w <= c * u) by (nonlinear_arith)
        requires
            current * u <= c * u + current,
            w == u - 1,
    ;
    assert(d * u <= total * v) by (nonlinear_arith)
        requires
            d * u <= total * u + total,
            v == u + 1,
    ;
    assert((100 * current * q) * (w * w * w) == 100 * w * w * q * (current * w))
        by (nonlinear_arith);
    assert(100 * w * w * q * (current * w) <= 100 * w * w * q * (c * u)) by (nonlinear_arith)
        requires
            current * w <= c * u,
    ;
    assert(100 * w * w * q * (c * u) == 100 * w * u * ((c * q) * w)) by (nonlinear_arith);
    assert(100 * w * u * ((c * q) * w) <= 100 * w * u * ((m * d) * u)) by (nonlinear_arith)
        requires
            (c * q) * w <= (m * d) * u,
    ;
    assert(100 * w * u * ((m * d) * u) == (h * w) * (d * u * u)) by (nonlinear_arith)
        requires
            h == 100 * m,
    ;
    assert((h * w) * (d * u * u) <= (p * u) * (d * u * u)) by (nonlinear_arith)
        requires
            h * w <= p * u,
    ;
    assert((p * u) * (d * u * u) == (p * u * u) * (d * u)) by (nonlinear_arith);
    assert((p * u * u) * (d * u) <= (p * u * u) * (total * v)) by (nonlinear_arith)
        requires
            d * u <= total * v,
    ;
    assert((p * u * u) * (total * v) == (p * total) * (u * u * v)) by (nonlinear_arith);
}

proof fn lemma_scale_above(x: nat, y: nat, k: nat, u: nat)
    requires
        k == 0x4_0000_0000_0000nat,
        u == SIGNIFICAND_END,
        x * (u * u * (u - 1)) <= y * ((u + 1) * (u + 1) * (u + 1)),
    ensures
        k * x <= (k + 1) * y,
{
    let a = (u * u * (u - 1)) as nat;
    let b = (u + 1) * (u + 1) * (u + 1);
    assert(k * b <= (k + 1) * a && a > 0) by (nonlinear_arith)
        requires
            k == 0x4_0000_0000_0000nat,
            u == 0x20_0000_0000_0000nat,
            a == u * u * (u - 1),
            b == (u + 1) * (u + 1) * (u + 1),
    ;
    lemma_scaled(k, x, y, a, b);
}

proof fn lemma_scale_below(x: nat, y: nat, k: nat, u: nat)
    requires
        k == 0x4_0000_0000_0000nat,
        u == SIGNIFICAND_END,
        y * ((u - 1) * (u - 1) * (u - 1)) <= x * (u * u * (u + 1)),
    ensures
        k * y <= (k + 1) * x,
{
    let a = ((u - 1) * (u - 1) * (u - 1)) as nat;
    let b = u * u * (u + 1);
    assert(k * b <= (k + 1) * a && a > 0) by (nonlinear_arith)
        requires
            k == 0x4_0000_0000_0000nat,
            u == 0x20_0000_0000_0000nat,
            a == (u - 1) * (u - 1) * (u - 1),
            b == u * u * (u + 1),
    ;
    lemma_scaled(k, y, x, a, b);
}

proof fn lemma_scaled(k: nat, x: nat, y: nat, a: nat, b: nat)
    requires
        x * a <= y * b,
        k * b <= (k + 1) * a,
        a > 0,
    ensures
        k * x <= (k + 1) * y,
{
    assert((k * x) * a == k * (x * a)) by (nonlinear_arith);
    assert(k * (x * a) <= k * (y * b)) by (nonlinear_arith)
        requires
            x * a <= y * b,
    ;
    assert(k * (y * b) == y * (k * b)) by (nonlinear_arith);
    assert(y * (k * b) <= y * ((k + 1) * a)) by (nonlinear_arith)
        requires
            k * b <= (k + 1) * a,
    ;
    assert(y * ((k + 1) * a) == ((k + 1) * y) * a) by (nonlinear_arith);
    assert(k * x <= (k + 1) * y) by (nonlinear_arith)
        requires
            (k * x) * a <= ((k + 1) * y) * a,
            a > 0,
    ;
}

}
