use vstd::prelude::*;

use crate::decimal::Decimal;
use crate::round_float::{round_fraction, RoundToFraction};

verus! {

pub trait ApproxEq: Sized {
    /// Whether the two values agree once rounded to `decimals` fraction digits.
    spec fn approx_eq(&self, other: &Self, decimals: u8) -> bool;

    fn aeq(&self, other: Self, decimals: u8) -> (r: bool)
        ensures
            r == self.approx_eq(&other, decimals),
    ;
}

impl ApproxEq for Decimal {
    open spec fn approx_eq(&self, other: &Self, decimals: u8) -> bool {
        round_fraction(self@, decimals as nat) == round_fraction(other@, decimals as nat)
    }

    fn aeq(&self, other: Self, decimals: u8) -> (r: bool) {
        let first = self.round_to_fraction(decimals as u32);
        let second = other.round_to_fraction(decimals as u32);
        first.same_value(&second)
    }
}

/// Two absent values agree; a present and an absent one never do.
impl<T: ApproxEq> ApproxEq for Option<T> {
    open spec fn approx_eq(&self, other: &Self, decimals: u8) -> bool {
        match self {
            Some(first) => match other {
                Some(second) => first.approx_eq(second, decimals),
                None => false,
            },
            None => other.is_none(),
        }
    }

    fn aeq(&self, other: Self, decimals: u8) -> (r: bool) {
        match self {
            Some(first) => match other {
                Some(second) => first.aeq(second, decimals),
                None => false,
            },
            None => other.is_none(),
        }
    }
}

/// Two failures agree whatever they carry; a success and a failure never do.
impl<T: ApproxEq, E> ApproxEq for Result<T, E> {
    open spec fn approx_eq(&self, other: &Self, decimals: u8) -> bool {
        match self {
            Ok(first) => match other {
                Ok(second) => first.approx_eq(second, decimals),
                Err(_) => false,
            },
            Err(_) => other.is_err(),
        }
    }

    fn aeq(&self, other: Self, decimals: u8) -> (r: bool) {
        match self {
            Ok(first) => match other {
                Ok(second) => first.aeq(second, decimals),
                Err(_) => false,
            },
            Err(_) => other.is_err(),
        }
    }
}

} // verus!

verus! {

/// Optional lifting: two absent values agree at any count of digits, and a present
/// value never agrees with an absent one, whichever side it stands on.
pub proof fn lemma_aeq_option_lifting<T: ApproxEq>(x: T, decimals: u8)
    ensures
        None::<T>.approx_eq(&None, decimals),
        !Some(x).approx_eq(&None, decimals),
        !None::<T>.approx_eq(&Some(x), decimals),
{
}

/// Fallible lifting: two failures agree whatever their payloads, and a success never
/// agrees with a failure, whichever side it stands on.
pub proof fn lemma_aeq_result_lifting<T: ApproxEq, E>(x: T, e1: E, e2: E, decimals: u8)
    ensures
        Err::<T, E>(e1).approx_eq(&Err(e2), decimals),
        !Ok::<T, E>(x).approx_eq(&Err(e1), decimals),
        !Err::<T, E>(e1).approx_eq(&Ok(x), decimals),
{
}

} // verus!
