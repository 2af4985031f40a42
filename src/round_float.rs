use vstd::prelude::*;

use crate::decimal::{lemma_normalize_rescale, lemma_pow10_positive, normalize, Decimal};
use crate::scale::{
    lemma_normalize_signed, lemma_units_odd, round_at, round_mag_at, trunc_mag, units_round,
    units_trunc,
};

verus! {

/// `x` with `digits` digits kept after the decimal point: truncated toward zero when
/// `digits` is zero, otherwise rounded half away from zero.
pub open spec fn round_fraction(x: (int, int), digits: nat) -> (int, int) {
    if digits == 0 {
        normalize(units_trunc(x.0, x.1), 0)
    } else {
        round_at(x, digits as int)
    }
}

pub trait RoundToFraction: Sized {
    /// Round to the specified number of digits in the fraction.
    fn round_to_fraction(&self, digits: u32) -> Self;
}

impl RoundToFraction for Decimal {
    fn round_to_fraction(&self, digits: u32) -> (r: Decimal)
        ensures
            r@ == round_fraction(self@, digits as nat),
    {
        let (neg, mag, exp) = self.parts();
        let (m, e) = if digits == 0 {
            trunc_mag(mag, exp)
        } else {
            round_mag_at(mag, exp, digits as i128)
        };
        proof {
            lemma_units_odd(mag as nat, exp as int, digits as int);
            if digits == 0 {
                lemma_normalize_signed(units_trunc(mag as int, exp as int) as nat, neg, 0);
            } else {
                lemma_normalize_signed(
                    units_round(mag as int, exp as int, digits as int) as nat,
                    neg,
                    -digits,
                );
            }
        }
        Decimal::from_parts(neg, m, e)
    }
}

} // verus!

verus! {

/// Rounding to a number of fraction digits is idempotent: rounding an already rounded
/// value again at the same count leaves it unchanged.
pub proof fn lemma_round_to_fraction_idempotent(x: Decimal, digits: u32)
    ensures
        round_fraction(round_fraction(x@, digits as nat), digits as nat) == round_fraction(
            x@,
            digits as nat,
        ),
{
    let d = digits as int;
    let y = round_fraction(x@, digits as nat);
    if digits == 0 {
        let t = units_trunc(x@.0, x@.1);
        lemma_normalize_rescale(t, 0);
        if y.0 != 0 {
            assert(units_trunc(y.0, y.1) == t);
        }
    } else {
        let u = units_round(x@.0, x@.1, d);
        lemma_normalize_rescale(u, -d);
        if y.0 != 0 {
            assert(units_round(y.0, y.1, d) == u);
        } else {
            assert(units_round(y.0, y.1, d) == 0) by {
                lemma_pow10_positive((y.1 + d) as nat);
            }
        }
    }
}

} // verus!
