use vstd::prelude::*;

use crate::approx_eq_dec::ApproxEq;
use crate::decimal::Decimal;
use crate::round_float::{round_fraction, RoundToFraction};

verus! {

pub trait NApproxEq: Sized {
    /// Whether the two values differ once rounded to `decimals` fraction digits.
    spec fn not_approx_eq(&self, other: &Self, decimals: u8) -> bool;

    fn nae(&self, other: Self, decimals: u8) -> (r: bool)
        ensures
            r == self.not_approx_eq(&other, decimals),
    ;
}

impl NApproxEq for Decimal {
    open spec fn not_approx_eq(&self, other: &Self, decimals: u8) -> bool {
        round_fraction(self@, decimals as nat) != round_fraction(other@, decimals as nat)
    }

    fn nae(&self, other: Self, decimals: u8) -> (r: bool) {
        let first = self.round_to_fraction(decimals as u32);
        let second = other.round_to_fraction(decimals as u32);
        !first.same_value(&second)
    }
}

/// Two absent values do not differ; a present and an absent one always do.
impl<T: NApproxEq> NApproxEq for Option<T> {
    open spec fn not_approx_eq(&self, other: &Self, decimals: u8) -> bool {
        match self {
            Some(first) => match other {
                Some(second) => first.not_approx_eq(second, decimals),
                None => true,
            },
            None => other.is_some(),
        }
    }

    fn nae(&self, other: Self, decimals: u8) -> (r: bool) {
        match self {
            Some(first) => match other {
                Some(second) => first.nae(second, decimals),
                None => true,
            },
            None => other.is_some(),
        }
    }
}

/// Two failures do not differ whatever they carry; a success and a failure always do.
impl<T: NApproxEq, E> NApproxEq for Result<T, E> {
    open spec fn not_approx_eq(&self, other: &Self, decimals: u8) -> bool {
        match self {
            Ok(first) => match other {
                Ok(second) => first.not_approx_eq(second, decimals),
                Err(_) => true,
            },
            Err(_) => other.is_ok(),
        }
    }

    fn nae(&self, other: Self, decimals: u8) -> (r: bool) {
        match self {
            Ok(first) => match other {
                Ok(second) => first.nae(second, decimals),
                Err(_) => true,
            },
            Err(_) => other.is_ok(),
        }
    }
}

} // verus!

verus! {

/// `nae` is the negation of `aeq`, and `aeq` is symmetric, on numbers, optional
/// numbers and fallible numbers.
pub proof fn lemma_aeq_nae_dual<E>(
    a: Decimal,
    b: Decimal,
    oa: Option<Decimal>,
    ob: Option<Decimal>,
    ra: Result<Decimal, E>,
    rb: Result<Decimal, E>,
    decimals: u8,
)
    ensures
        a.approx_eq(&b, decimals) == !a.not_approx_eq(&b, decimals),
        a.approx_eq(&b, decimals) == b.approx_eq(&a, decimals),
        oa.approx_eq(&ob, decimals) == !oa.not_approx_eq(&ob, decimals),
        oa.approx_eq(&ob, decimals) == ob.approx_eq(&oa, decimals),
        ra.approx_eq(&rb, decimals) == !ra.not_approx_eq(&rb, decimals),
        ra.approx_eq(&rb, decimals) == rb.approx_eq(&ra, decimals),
{
}

} // verus!
