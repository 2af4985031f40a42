use vstd::prelude::*;

use crate::decimal::{
    lemma_normalize_rescale, lemma_pow10_positive, lemma_strip_scaled, pow10, Decimal,
};
use crate::scale::{
    count_digits, div_round_pow10, lemma_normalize_signed, lemma_num_digits_scaled,
    lemma_units_odd, num_digits, round_at, round_mag_at, units_round,
};

verus! {

/// The length of the decimal text of `x` rounded to a whole number, with the minus
/// sign of a negative `x` counted (a negative value that rounds to zero reads `-0`).
pub open spec fn whole_len(x: (int, int)) -> int {
    (if x.0 < 0 {
        1int
    } else {
        0
    }) + num_digits(units_round(if x.0 < 0 { -x.0 } else { x.0 }, x.1, 0) as nat)
}

/// `x` rounded to `n` significant figures: zero for a zero value or no digits;
/// otherwise rounded half away from zero at `n - whole_len(x)` fraction digits (a
/// negative count rounds to tens, hundreds, and so on).
pub open spec fn round_sf(x: (int, int), n: nat) -> (int, int) {
    if x.0 == 0 || n == 0 {
        (0, 0)
    } else {
        round_at(x, n - whole_len(x))
    }
}

pub trait RoundToSigDig: Sized {
    /// Whether the value rounded to `significant_digits` figures is representable.
    spec fn sf_representable(&self, significant_digits: u8) -> bool;

    /// Round to the specified number of significant figures.
    fn round_to_sf(&self, significant_digits: u8) -> Self
        requires
            self.sf_representable(significant_digits),
    ;
}

/// `whole_len` of the nonzero canonical number `±mag·10^exp`.
fn whole_len_of(neg: bool, mag: u64, exp: i64) -> (r: i128)
    requires
        mag != 0,
    ensures
        r == whole_len((if neg { -(mag as int) } else { mag as int }, exp as int)),
        1 <= r <= 21 + if exp >= 0 { exp as int } else { 0 },
{
    let sign: i128 = if neg { 1 } else { 0 };
    proof {
        lemma_units_odd(mag as nat, exp as int, 0);
    }
    if exp >= 0 {
        let d = count_digits(mag);
        proof {
            lemma_num_digits_scaled(mag as nat, exp as nat);
            assert(units_round(mag as int, exp as int, 0) == mag * pow10(exp as nat));
            assert(num_digits((mag * pow10(exp as nat)) as nat) == d + exp);
            assert(num_digits(units_round(mag as int, exp as int, 0) as nat) == d + exp);
        }
        sign + d as i128 + exp as i128
    } else {
        let q = div_round_pow10(mag, (-(exp as i128)) as u128);
        assert(units_round(mag as int, exp as int, 0) == q);
        sign + count_digits(q) as i128
    }
}

/// The sign, stripped magnitude and exponent of `x` rounded to `n` significant figures.
pub(crate) fn sf_parts(x: &Decimal, n: u8) -> (r: (bool, u64, i128))
    ensures
        (if r.0 { -(r.1 as int) } else { r.1 as int }, r.2 as int) == round_sf(x@, n as nat),
        r.1 == 0 ==> !r.0 && r.2 == 0,
        r.1 != 0 ==> r.1 % 10 != 0,
        i64::MIN <= r.2,
{
    let (neg, mag, exp) = x.parts();
    if mag == 0 || n == 0 {
        return (false, 0, 0);
    }
    let len = whole_len_of(neg, mag, exp);
    let p: i128 = n as i128 - len;
    let (m, e) = round_mag_at(mag, exp, p);
    proof {
        lemma_units_odd(mag as nat, exp as int, p as int);
        lemma_normalize_signed(units_round(mag as int, exp as int, p as int) as nat, neg, -p);
    }
    (neg && m != 0, m, e)
}

impl RoundToSigDig for Decimal {
    open spec fn sf_representable(&self, significant_digits: u8) -> bool {
        round_sf(self@, significant_digits as nat).1 <= i64::MAX
    }

    fn round_to_sf(&self, significant_digits: u8) -> (r: Decimal)
        ensures
            r@ == round_sf(self@, significant_digits as nat),
    {
        let (neg, m, e) = sf_parts(self, significant_digits);
        Decimal::from_parts(neg, m, e)
    }
}

} // verus!

verus! {

/// Whether the nonzero number `y` has no digit below the last of its `n` significant
/// figures (as `round_sf` counts them), so that rounding it to `n` figures moves nothing.
pub open spec fn within_sf(y: (int, int), n: nat) -> bool {
    y.0 == 0 || y.1 + n >= whole_len(y)
}

/// Rounding to significant figures is idempotent wherever the rounded value keeps its
/// figures: `round_sf(round_sf(x, n), n) == round_sf(x, n)` unless rounding added a
/// whole digit and left a digit below the new last figure (9.49 at two figures gives
/// 9.5, whose whole part reads `10`, and 9.5 at two figures is 10).
pub proof fn lemma_round_to_sf_idempotent(x: Decimal, significant_digits: u8)
    requires
        within_sf(round_sf(x@, significant_digits as nat), significant_digits as nat),
    ensures
        round_sf(round_sf(x@, significant_digits as nat), significant_digits as nat) == round_sf(
            x@,
            significant_digits as nat,
        ),
{
    let n = significant_digits as nat;
    let y = round_sf(x@, n);
    if x@.0 != 0 && n != 0 {
        let s = n - whole_len(x@);
        lemma_normalize_rescale(units_round(x@.0, x@.1, s), -s);
        if y.0 != 0 {
            let s2 = n - whole_len(y);
            let j = (y.1 + s2) as nat;
            assert(units_round(y.0, y.1, s2) == y.0 * pow10(j));
            lemma_pow10_positive(j);
            let a: int = if y.0 < 0 { -y.0 } else { y.0 };
            assert(a % 10 != 0) by (nonlinear_arith)
                requires
                    y.0 % 10 != 0,
                    a == y.0 || a == -y.0,
            ;
            lemma_strip_scaled(a as nat, y.1, j);
            if y.0 < 0 {
                assert(y.0 * pow10(j) == -(a * pow10(j))) by (nonlinear_arith)
                    requires
                        a == -y.0,
                ;
            }
            assert(a * pow10(j) > 0) by (nonlinear_arith)
                requires
                    a > 0,
                    pow10(j) >= 1,
            ;
        }
    }
}

/// When rounding to significant figures adds no character to the whole part, the
/// result keeps its figures, so the idempotence above applies.
pub proof fn lemma_round_to_sf_within(x: Decimal, significant_digits: u8)
    requires
        whole_len(round_sf(x@, significant_digits as nat)) <= whole_len(x@),
    ensures
        within_sf(round_sf(x@, significant_digits as nat), significant_digits as nat),
{
    let n = significant_digits as nat;
    if x@.0 != 0 && n != 0 {
        let s = n - whole_len(x@);
        lemma_normalize_rescale(units_round(x@.0, x@.1, s), -s);
    }
}

} // verus!

verus! {

/// Zero rounds to zero at any number of figures, and any value rounds to zero at no
/// figures.
pub proof fn lemma_round_to_sf_zero(x: Decimal, significant_digits: u8)
    ensures
        round_sf(x@, 0) == (0int, 0int),
        x@.0 == 0 ==> round_sf(x@, significant_digits as nat) == (0int, 0int),
{
}

} // verus!

verus! {

/// The condition of the idempotence law is exact: where the rounded value has a digit
/// below its own last figure, rounding it again changes it.
pub proof fn lemma_round_to_sf_not_idempotent(x: Decimal, significant_digits: u8)
    requires
        !within_sf(round_sf(x@, significant_digits as nat), significant_digits as nat),
    ensures
        round_sf(round_sf(x@, significant_digits as nat), significant_digits as nat) != round_sf(
            x@,
            significant_digits as nat,
        ),
{
    let n = significant_digits as nat;
    let y = round_sf(x@, n);
    let s2 = n - whole_len(y);
    lemma_normalize_rescale(units_round(y.0, y.1, s2), -s2);
}

} // verus!
