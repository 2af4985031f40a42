use vstd::prelude::*;

use crate::complex::Complex;
use crate::decimal::Decimal;
use crate::round_sf::{round_sf, sf_parts};

verus! {

pub trait ApproxEqSf: Sized {
    /// Whether the two values agree once rounded to `significant_figures` figures.
    spec fn approx_eq_sf(&self, other: &Self, significant_figures: u8) -> bool;

    fn aeq_sf(&self, other: Self, significant_figures: u8) -> (r: bool)
        ensures
            r == self.approx_eq_sf(&other, significant_figures),
    ;
}

impl ApproxEqSf for Decimal {
    open spec fn approx_eq_sf(&self, other: &Self, significant_figures: u8) -> bool {
        round_sf(self@, significant_figures as nat) == round_sf(other@, significant_figures as nat)
    }

    fn aeq_sf(&self, other: Self, significant_figures: u8) -> (r: bool) {
        let first = sf_parts(self, significant_figures);
        let second = sf_parts(&other, significant_figures);
        first.0 == second.0 && first.1 == second.1 && first.2 == second.2
    }
}

/// Two absent values agree; a present and an absent one never do.
impl<T: ApproxEqSf> ApproxEqSf for Option<T> {
    open spec fn approx_eq_sf(&self, other: &Self, significant_figures: u8) -> bool {
        match self {
            Some(first) => match other {
                Some(second) => first.approx_eq_sf(second, significant_figures),
                None => false,
            },
            None => other.is_none(),
        }
    }

    fn aeq_sf(&self, other: Self, significant_figures: u8) -> (r: bool) {
        match self {
            Some(first) => match other {
                Some(second) => first.aeq_sf(second, significant_figures),
                None => false,
            },
            None => other.is_none(),
        }
    }
}

/// Two failures agree whatever they carry; a success and a failure never do.
impl<T: ApproxEqSf, E> ApproxEqSf for Result<T, E> {
    open spec fn approx_eq_sf(&self, other: &Self, significant_figures: u8) -> bool {
        match self {
            Ok(first) => match other {
                Ok(second) => first.approx_eq_sf(second, significant_figures),
                Err(_) => false,
            },
            Err(_) => other.is_err(),
        }
    }

    fn aeq_sf(&self, other: Self, significant_figures: u8) -> (r: bool) {
        match self {
            Ok(first) => match other {
                Ok(second) => first.aeq_sf(second, significant_figures),
                Err(_) => false,
            },
            Err(_) => other.is_err(),
        }
    }
}

/// Both the real and the imaginary parts must agree.
impl<T: ApproxEqSf> ApproxEqSf for Complex<T> {
    open spec fn approx_eq_sf(&self, other: &Self, significant_figures: u8) -> bool {
        self.re.approx_eq_sf(&other.re, significant_figures) && self.im.approx_eq_sf(
            &other.im,
            significant_figures,
        )
    }

    fn aeq_sf(&self, other: Self, significant_figures: u8) -> (r: bool) {
        let real_aeq_sf = self.re.aeq_sf(other.re, significant_figures);
        let imaginary_aeq_sf = self.im.aeq_sf(other.im, significant_figures);
        real_aeq_sf && imaginary_aeq_sf
    }
}

} // verus!

verus! {

/// Optional lifting: two absent values agree at any count of figures, and a present
/// value never agrees with an absent one, whichever side it stands on.
pub proof fn lemma_aeq_sf_option_lifting<T: ApproxEqSf>(x: T, significant_figures: u8)
    ensures
        None::<T>.approx_eq_sf(&None, significant_figures),
        !Some(x).approx_eq_sf(&None, significant_figures),
        !None::<T>.approx_eq_sf(&Some(x), significant_figures),
{
}

/// Fallible lifting: two failures agree whatever their payloads, and a success never
/// agrees with a failure, whichever side it stands on.
pub proof fn lemma_aeq_sf_result_lifting<T: ApproxEqSf, E>(
    x: T,
    e1: E,
    e2: E,
    significant_figures: u8,
)
    ensures
        Err::<T, E>(e1).approx_eq_sf(&Err(e2), significant_figures),
        !Ok::<T, E>(x).approx_eq_sf(&Err(e1), significant_figures),
        !Err::<T, E>(e1).approx_eq_sf(&Ok(x), significant_figures),
{
}

/// Two complex numbers agree to `significant_figures` figures exactly when their real
/// parts agree and their imaginary parts agree; so from agreeing values, changing either
/// part alone to one that disagrees makes the whole disagree.
pub proof fn lemma_complex_aeq_sf_componentwise(
    a: Complex<Decimal>,
    b: Complex<Decimal>,
    re: Decimal,
    im: Decimal,
    significant_figures: u8,
)
    ensures
        a.approx_eq_sf(&b, significant_figures) == (a.re.approx_eq_sf(&b.re, significant_figures)
            && a.im.approx_eq_sf(&b.im, significant_figures)),
        a.approx_eq_sf(&b, significant_figures) && !re.approx_eq_sf(&b.re, significant_figures)
            ==> !(Complex { re: re, im: a.im }).approx_eq_sf(&b, significant_figures),
        a.approx_eq_sf(&b, significant_figures) && !im.approx_eq_sf(&b.im, significant_figures)
            ==> !(Complex { re: a.re, im: im }).approx_eq_sf(&b, significant_figures),
{
}

} // verus!
