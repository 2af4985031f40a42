use vstd::prelude::*;
use vstd::arithmetic::div_mod::{lemma_basic_div, lemma_fundamental_div_mod, lemma_mod_pos_bound};

use crate::decimal::{
    lemma_pow10_20, lemma_pow10_monotonic, lemma_pow10_positive, lemma_strip, lemma_strip_scaled,
    normalize, pow10, strip, strip_zeros,
};

verus! {

/// `a / b` rounded to the nearest integer, ties away from zero (`b > 0`).
pub open spec fn div_round(a: int, b: int) -> int {
    if a >= 0 {
        (2 * a + b) / (2 * b)
    } else {
        -((2 * -a + b) / (2 * b))
    }
}

/// `a / b` truncated toward zero (`b > 0`).
pub open spec fn div_trunc(a: int, b: int) -> int {
    if a >= 0 {
        a / b
    } else {
        -(-a / b)
    }
}

/// The number `mant·10^exp` counted in units of `10^-p`, rounded half away from zero.
pub open spec fn units_round(mant: int, exp: int, p: int) -> int {
    if exp + p >= 0 {
        mant * pow10((exp + p) as nat)
    } else {
        div_round(mant, pow10((-(exp + p)) as nat))
    }
}

/// The number `mant·10^exp` counted in whole units, truncated toward zero.
pub open spec fn units_trunc(mant: int, exp: int) -> int {
    if exp >= 0 {
        mant * pow10(exp as nat)
    } else {
        div_trunc(mant, pow10((-exp) as nat))
    }
}

/// The number `x` rounded half away from zero to a multiple of `10^-p`.
pub open spec fn round_at(x: (int, int), p: int) -> (int, int) {
    normalize(units_round(x.0, x.1, p), -p)
}

/// The number of decimal digits of `n` (one for zero).
pub open spec fn num_digits(n: nat) -> nat
    decreases n,
{
    if n < 10 {
        1
    } else {
        1 + num_digits(n / 10)
    }
}

pub proof fn lemma_div_round_bounds(a: int, b: int)
    requires
        a >= 0,
        b >= 1,
    ensures
        0 <= div_round(a, b) <= a,
        2 * a < b ==> div_round(a, b) == 0,
{
    let q = (2 * a + b) / (2 * b);
    lemma_fundamental_div_mod(2 * a + b, 2 * b);
    lemma_mod_pos_bound(2 * a + b, 2 * b);
    let r = (2 * a + b) % (2 * b);
    assert(0 <= q <= a) by (nonlinear_arith)
        requires
            2 * a + b == 2 * b * q + r,
            0 <= r < 2 * b,
            a >= 0,
            b >= 1,
    ;
    if 2 * a < b {
        lemma_basic_div(2 * a + b, 2 * b);
    }
}

/// Rounding and truncation commute with negation.
pub proof fn lemma_units_odd(mag: nat, exp: int, p: int)
    ensures
        units_round(-mag, exp, p) == -units_round(mag as int, exp, p),
        units_round(mag as int, exp, p) >= 0,
        units_trunc(-mag, exp) == -units_trunc(mag as int, exp),
        units_trunc(mag as int, exp) >= 0,
{
    let c = exp + p;
    if c >= 0 {
        lemma_pow10_positive(c as nat);
        assert((-mag) * pow10(c as nat) == -(mag * pow10(c as nat))) by (nonlinear_arith);
        assert(mag * pow10(c as nat) >= 0) by (nonlinear_arith)
            requires
                pow10(c as nat) >= 1,
        ;
    } else {
        lemma_pow10_positive((-c) as nat);
        lemma_div_round_bounds(mag as int, pow10((-c) as nat));
        if mag == 0 {
            lemma_basic_div(pow10((-c) as nat), 2 * pow10((-c) as nat));
        }
    }
    if exp >= 0 {
        lemma_pow10_positive(exp as nat);
        assert((-mag) * pow10(exp as nat) == -(mag * pow10(exp as nat))) by (nonlinear_arith);
        assert(mag * pow10(exp as nat) >= 0) by (nonlinear_arith)
            requires
                pow10(exp as nat) >= 1,
        ;
    } else {
        lemma_pow10_positive((-exp) as nat);
        lemma_div_pos_is_pos_local(mag as int, pow10((-exp) as nat));
        if mag == 0 {
            lemma_basic_div(0, pow10((-exp) as nat));
        }
    }
}

proof fn lemma_div_pos_is_pos_local(a: int, b: int)
    requires
        a >= 0,
        b >= 1,
    ensures
        0 <= a / b <= a,
{
    lemma_fundamental_div_mod(a, b);
    lemma_mod_pos_bound(a, b);
    let q = a / b;
    let r = a % b;
    assert(0 <= q <= a) by (nonlinear_arith)
        requires
            a == b * q + r,
            0 <= r < b,
            a >= 0,
            b >= 1,
    ;
}

/// Normalizing a negated count negates the stripped magnitude.
pub proof fn lemma_normalize_signed(u: nat, neg: bool, e: int)
    ensures
        normalize(if neg { -u } else { u as int }, e) == (if neg { -(strip(u, e).0 as int) } else {
            strip(u, e).0 as int
        }, strip(u, e).1),
{
    lemma_strip(u, e);
}

pub proof fn lemma_num_digits_bound(n: nat, k: nat)
    requires
        k >= 1,
        n < pow10(k),
    ensures
        num_digits(n) <= k,
    decreases k,
{
    if n >= 10 {
        assert(k > 1) by {
            if k == 1 {
                assert(pow10(1) == 10) by {
                    reveal_with_fuel(pow10, 2);
                }
            }
        }
        assert(n / 10 < pow10((k - 1) as nat));
        lemma_num_digits_bound(n / 10, (k - 1) as nat);
    }
}

/// Scaling a positive number by `10^e` adds `e` digits.
pub proof fn lemma_num_digits_scaled(n: nat, e: nat)
    requires
        n >= 1,
    ensures
        num_digits((n * pow10(e)) as nat) == num_digits(n) + e,
    decreases e,
{
    if e > 0 {
        let p = pow10((e - 1) as nat);
        lemma_pow10_positive((e - 1) as nat);
        lemma_num_digits_scaled(n, (e - 1) as nat);
        assert(n * pow10(e) == (n * p) * 10) by (nonlinear_arith)
            requires
                pow10(e) == 10 * p,
        ;
        assert(n * p >= 1) by (nonlinear_arith)
            requires
                n >= 1,
                p >= 1,
        ;
        assert((n * p * 10) / 10 == n * p) by (nonlinear_arith);
    }
}

/// `10^k` on machine integers.
pub(crate) fn pow10_u128(k: u32) -> (r: u128)
    requires
        k <= 19,
    ensures
        r == pow10(k as nat),
        1 <= r <= 10_000_000_000_000_000_000,
{
    let mut r: u128 = 1;
    let mut i: u32 = 0;
    proof {
        lemma_pow10_20();
    }
    while i < k
        invariant
            i <= k <= 19,
            r == pow10(i as nat),
            pow10(19) == 10_000_000_000_000_000_000,
        decreases k - i,
    {
        proof {
            lemma_pow10_monotonic(i as nat, 19);
        }
        r = r * 10;
        i = i + 1;
    }
    proof {
        lemma_pow10_positive(k as nat);
        lemma_pow10_monotonic(k as nat, 19);
    }
    r
}

/// `a / 10^k`, rounded half away from zero.
pub(crate) fn div_round_pow10(a: u64, k: u128) -> (q: u64)
    ensures
        q == div_round(a as int, pow10(k as nat)),
        q <= a,
{
    proof {
        lemma_pow10_positive(k as nat);
        lemma_div_round_bounds(a as int, pow10(k as nat));
    }
    if k >= 20 {
        proof {
            lemma_pow10_20();
            lemma_pow10_monotonic(20, k as nat);
        }
        return 0;
    }
    let b = pow10_u128(k as u32);
    let q = (2 * (a as u128) + b) / (2 * b);
    q as u64
}

/// `a / 10^k`, truncated.
pub(crate) fn div_trunc_pow10(a: u64, k: u128) -> (q: u64)
    ensures
        q == div_trunc(a as int, pow10(k as nat)),
{
    proof {
        lemma_pow10_positive(k as nat);
        lemma_div_pos_is_pos_local(a as int, pow10(k as nat));
    }
    if k >= 20 {
        proof {
            lemma_pow10_20();
            lemma_pow10_monotonic(20, k as nat);
            lemma_basic_div(a as int, pow10(k as nat));
        }
        return 0;
    }
    let b = pow10_u128(k as u32);
    let q = (a as u128) / b;
    q as u64
}

/// The canonical magnitude `mag·10^exp` rounded to a multiple of `10^-p`: the stripped
/// count of units.
pub(crate) fn round_mag_at(mag: u64, exp: i64, p: i128) -> (r: (u64, i128))
    requires
        mag == 0 ==> exp == 0,
        mag != 0 ==> mag % 10 != 0,
        -0x1_0000_0000_0000_0000 <= p <= 0x1_0000_0000_0000_0000,
    ensures
        (r.0 as nat, r.1 as int) == strip(units_round(mag as int, exp as int, p as int) as nat, -p),
        r.0 == 0 ==> r.1 == 0,
        r.0 != 0 ==> r.0 % 10 != 0 && exp <= r.1 <= exp + 38,
        r.0 != 0 && exp + p >= 0 ==> r.1 == exp,
        r.0 != 0 && exp + p < 0 ==> r.1 <= -p + 19,
{
    let c: i128 = exp as i128 + p;
    proof {
        lemma_units_odd(mag as nat, exp as int, p as int);
    }
    if c >= 0 {
        proof {
            lemma_pow10_positive(c as nat);
            if mag != 0 {
                lemma_strip_scaled(mag as nat, exp as int, c as nat);
            } else {
                assert(0 * pow10(c as nat) == 0);
            }
        }
        return (mag, exp as i128);
    }
    let k: i128 = -c;
    if k >= 20 {
        proof {
            lemma_pow10_20();
            lemma_pow10_monotonic(20, k as nat);
            lemma_div_round_bounds(mag as int, pow10(k as nat));
        }
        return (0, 0);
    }
    let q = div_round_pow10(mag, k as u128);
    strip_zeros(q, -p)
}

/// The canonical magnitude `mag·10^exp` truncated to a whole number, stripped.
pub(crate) fn trunc_mag(mag: u64, exp: i64) -> (r: (u64, i128))
    requires
        mag == 0 ==> exp == 0,
        mag != 0 ==> mag % 10 != 0,
    ensures
        (r.0 as nat, r.1 as int) == strip(units_trunc(mag as int, exp as int) as nat, 0),
        r.0 == 0 ==> r.1 == 0,
        r.0 != 0 ==> r.0 % 10 != 0 && 0 <= r.1 <= i64::MAX,
{
    proof {
        lemma_units_odd(mag as nat, exp as int, 0);
    }
    if exp >= 0 {
        proof {
            lemma_pow10_positive(exp as nat);
            if mag != 0 {
                lemma_strip_scaled(mag as nat, exp as int, exp as nat);
            } else {
                assert(0 * pow10(exp as nat) == 0);
            }
        }
        return (mag, exp as i128);
    }
    let q = div_trunc_pow10(mag, -(exp as i128) as u128);
    strip_zeros(q, 0)
}

/// The number of decimal digits of `n`.
pub(crate) fn count_digits(n: u64) -> (r: u64)
    ensures
        r == num_digits(n as nat),
        1 <= r <= 20,
{
    let mut c: u64 = 1;
    let mut v: u64 = n;
    proof {
        lemma_pow10_20();
        lemma_num_digits_bound(n as nat, 20);
    }
    while v >= 10
        invariant
            1 <= c,
            c - 1 + num_digits(v as nat) == num_digits(n as nat),
            num_digits(n as nat) <= 20,
        decreases v,
    {
        v = v / 10;
        c = c + 1;
    }
    c
}

} // verus!
