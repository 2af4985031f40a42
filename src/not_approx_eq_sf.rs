use vstd::prelude::*;

use crate::approx_eq_sf::ApproxEqSf;
use crate::complex::Complex;
use crate::decimal::Decimal;
use crate::round_sf::{round_sf, sf_parts};

verus! {

pub trait NApproxEqSf: Sized {
    /// Whether the two values differ once rounded to `significant_figures` figures.
    spec fn not_approx_eq_sf(&self, other: &Self, significant_figures: u8) -> bool;

    fn nae_sf(&self, other: Self, significant_figures: u8) -> (r: bool)
        ensures
            r == self.not_approx_eq_sf(&other, significant_figures),
    ;
}

impl NApproxEqSf for Decimal {
    open spec fn not_approx_eq_sf(&self, other: &Self, significant_figures: u8) -> bool {
        round_sf(self@, significant_figures as nat) != round_sf(other@, significant_figures as nat)
    }

    fn nae_sf(&self, other: Self, significant_figures: u8) -> (r: bool) {
        let first = sf_parts(self, significant_figures);
        let second = sf_parts(&other, significant_figures);
        first.0 != second.0 || first.1 != second.1 || first.2 != second.2
    }
}

/// Two absent values do not differ; a present and an absent one always do.
impl<T: NApproxEqSf> NApproxEqSf for Option<T> {
    open spec fn not_approx_eq_sf(&self, other: &Self, significant_figures: u8) -> bool {
        match self {
            Some(first) => match other {
                Some(second) => first.not_approx_eq_sf(second, significant_figures),
                None => true,
            },
            None => other.is_some(),
        }
    }

    fn nae_sf(&self, other: Self, significant_figures: u8) -> (r: bool) {
        match self {
            Some(first) => match other {
                Some(second) => first.nae_sf(second, significant_figures),
                None => true,
            },
            None => other.is_some(),
        }
    }
}

/// Two failures do not differ whatever they carry; a success and a failure always do.
impl<T: NApproxEqSf, E> NApproxEqSf for Result<T, E> {
    open spec fn not_approx_eq_sf(&self, other: &Self, significant_figures: u8) -> bool {
        match self {
            Ok(first) => match other {
                Ok(second) => first.not_approx_eq_sf(second, significant_figures),
                Err(_) => true,
            },
            Err(_) => other.is_ok(),
        }
    }

    fn nae_sf(&self, other: Self, significant_figures: u8) -> (r: bool) {
        match self {
            Ok(first) => match other {
                Ok(second) => first.nae_sf(second, significant_figures),
                Err(_) => true,
            },
            Err(_) => other.is_ok(),
        }
    }
}

/// Either the real or the imaginary part differing is enough.
impl<T: NApproxEqSf> NApproxEqSf for Complex<T> {
    open spec fn not_approx_eq_sf(&self, other: &Self, significant_figures: u8) -> bool {
        self.re.not_approx_eq_sf(&other.re, significant_figures) || self.im.not_approx_eq_sf(
            &other.im,
            significant_figures,
        )
    }

    fn nae_sf(&self, other: Self, significant_figures: u8) -> (r: bool) {
        let real_nae_sf = self.re.nae_sf(other.re, significant_figures);
        let imaginary_nae_sf = self.im.nae_sf(other.im, significant_figures);
        real_nae_sf || imaginary_nae_sf
    }
}

} // verus!

verus! {

/// `nae_sf` is the negation of `aeq_sf`, and `aeq_sf` is symmetric, on numbers,
/// optional numbers and fallible numbers.
pub proof fn lemma_aeq_nae_sf_dual<E>(
    a: Decimal,
    b: Decimal,
    oa: Option<Decimal>,
    ob: Option<Decimal>,
    ra: Result<Decimal, E>,
    rb: Result<Decimal, E>,
    significant_figures: u8,
)
    ensures
        a.approx_eq_sf(&b, significant_figures) == !a.not_approx_eq_sf(&b, significant_figures),
        a.approx_eq_sf(&b, significant_figures) == b.approx_eq_sf(&a, significant_figures),
        oa.approx_eq_sf(&ob, significant_figures) == !oa.not_approx_eq_sf(&ob, significant_figures),
        oa.approx_eq_sf(&ob, significant_figures) == ob.approx_eq_sf(&oa, significant_figures),
        ra.approx_eq_sf(&rb, significant_figures) == !ra.not_approx_eq_sf(&rb, significant_figures),
        ra.approx_eq_sf(&rb, significant_figures) == rb.approx_eq_sf(&ra, significant_figures),
{
}

/// On complex numbers, and on optional and fallible ones, `nae_sf` is the negation of
/// `aeq_sf`: a difference in either part is a difference of the whole.
pub proof fn lemma_complex_aeq_nae_sf_dual<E>(
    a: Complex<Decimal>,
    b: Complex<Decimal>,
    oa: Option<Complex<Decimal>>,
    ob: Option<Complex<Decimal>>,
    ra: Result<Complex<Decimal>, E>,
    rb: Result<Complex<Decimal>, E>,
    significant_figures: u8,
)
    ensures
        a.approx_eq_sf(&b, significant_figures) == !a.not_approx_eq_sf(&b, significant_figures),
        a.approx_eq_sf(&b, significant_figures) == b.approx_eq_sf(&a, significant_figures),
        oa.approx_eq_sf(&ob, significant_figures) == !oa.not_approx_eq_sf(&ob, significant_figures),
        ra.approx_eq_sf(&rb, significant_figures) == !ra.not_approx_eq_sf(&rb, significant_figures),
{
}

} // verus!
