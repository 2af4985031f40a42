use vstd::prelude::*;

verus! {

/// `10^n`.
pub open spec fn pow10(n: nat) -> int
    decreases n,
{
    if n == 0 {
        1
    } else {
        10 * pow10((n - 1) as nat)
    }
}

/// Moves the trailing decimal zeros of `mag` into the exponent; zero becomes `(0, 0)`.
pub open spec fn strip(mag: nat, exp: int) -> (nat, int)
    decreases mag,
{
    if mag == 0 {
        (0, 0)
    } else if mag % 10 == 0 {
        strip(mag / 10, exp + 1)
    } else {
        (mag, exp)
    }
}

/// The canonical form `(m, e)` of the number `mant·10^exp`: `m` has no trailing
/// zero, and zero is `(0, 0)`.
pub open spec fn normalize(mant: int, exp: int) -> (int, int) {
    let s = strip(if mant < 0 { -mant } else { mant } as nat, exp);
    (if mant < 0 { -s.0 } else { s.0 as int }, s.1)
}

/// An exact decimal number `mantissa·10^exponent`, kept in canonical form, so that
/// two values are equal exactly when their fields are.
///
/// Its view is the pair `(mantissa, exponent)` of that canonical form.
#[derive(Clone, Copy, Debug, PartialEq, Eq, Structural)]
pub struct Decimal {
    pub(crate) neg: bool,
    pub(crate) mag: u64,
    pub(crate) exp: i64,
}

impl View for Decimal {
    type V = (int, int);

    closed spec fn view(&self) -> (int, int) {
        (if self.neg { -(self.mag as int) } else { self.mag as int }, self.exp as int)
    }
}

pub proof fn lemma_pow10_positive(n: nat)
    ensures
        pow10(n) >= 1,
    decreases n,
{
    if n > 0 {
        lemma_pow10_positive((n - 1) as nat);
    }
}

pub proof fn lemma_pow10_monotonic(a: nat, b: nat)
    requires
        a <= b,
    ensures
        pow10(a) <= pow10(b),
    decreases b,
{
    if a < b {
        lemma_pow10_monotonic(a, (b - 1) as nat);
        lemma_pow10_positive((b - 1) as nat);
    }
}

pub proof fn lemma_pow10_20()
    ensures
        pow10(19) == 10_000_000_000_000_000_000,
        pow10(20) == 100_000_000_000_000_000_000,
{
    reveal_with_fuel(pow10, 21);
}

/// Stripping gives a canonical pair, never loses zeros below the original exponent,
/// and keeps the number: `mag == m·10^(e - exp)`.
pub proof fn lemma_strip(mag: nat, exp: int)
    ensures
        ({
            let s = strip(mag, exp);
            &&& s.0 == 0 ==> s.1 == 0
            &&& s.0 != 0 ==> s.0 % 10 != 0 && exp <= s.1 && mag == s.0 * pow10((s.1 - exp) as nat)
            &&& mag == 0 <==> s.0 == 0
            &&& s.0 <= mag
        }),
    decreases mag,
{
    if mag != 0 && mag % 10 == 0 {
        lemma_strip(mag / 10, exp + 1);
        let s = strip(mag, exp);
        let j = (s.1 - exp - 1) as nat;
        assert(pow10((s.1 - exp) as nat) == 10 * pow10(j));
        assert(s.0 * (10 * pow10(j)) == 10 * (s.0 * pow10(j))) by (nonlinear_arith);
    }
}

/// A canonical magnitude scaled by `10^j` strips back to itself.
pub proof fn lemma_strip_scaled(mag: nat, exp: int, j: nat)
    requires
        mag % 10 != 0,
    ensures
        strip(mag * pow10(j) as nat, exp - j) == (mag, exp),
    decreases j,
{
    lemma_pow10_positive(j);
    if j > 0 {
        let p = pow10((j - 1) as nat);
        lemma_pow10_positive((j - 1) as nat);
        assert(mag * pow10(j) == (mag * p) * 10) by (nonlinear_arith)
            requires
                pow10(j) == 10 * p,
        ;
        assert(mag * p >= 1) by (nonlinear_arith)
            requires
                mag >= 1,
                p >= 1,
        ;
        lemma_strip_scaled(mag, exp, (j - 1) as nat);
        assert((mag * p * 10) / 10 == mag * p) by (nonlinear_arith);
        assert((mag * p * 10) % 10 == 0) by (nonlinear_arith);
    }
}

/// The canonical form of `v·10^e` is `m·10^f` with `m·10^(f - e) == v`; its mantissa
/// has no trailing zero, and it is zero only for `v == 0`.
pub proof fn lemma_normalize_rescale(v: int, e: int)
    ensures
        ({
            let y = normalize(v, e);
            &&& y.0 == 0 <==> v == 0
            &&& y.0 == 0 ==> y.1 == 0
            &&& y.0 != 0 ==> y.1 >= e && y.0 * pow10((y.1 - e) as nat) == v && y.0 % 10 != 0
        }),
{
    let a: int = if v < 0 { -v } else { v };
    lemma_strip(a as nat, e);
    let s = strip(a as nat, e);
    if v < 0 {
        let p = pow10((s.1 - e) as nat);
        assert((-(s.0 as int)) * p == -(s.0 * p)) by (nonlinear_arith);
        assert((-(s.0 as int)) % 10 != 0) by (nonlinear_arith)
            requires
                s.0 % 10 != 0,
        ;
    }
}

/// Stripping a nonzero magnitude that fits a `u64` moves at most 19 zeros.
pub proof fn lemma_strip_shift_bound(mag: nat, exp: int)
    requires
        0 < mag <= u64::MAX,
    ensures
        exp <= strip(mag, exp).1 <= exp + 19,
{
    lemma_strip(mag, exp);
    let s = strip(mag, exp);
    let j = (s.1 - exp) as nat;
    lemma_pow10_positive(j);
    if j >= 20 {
        lemma_pow10_20();
        lemma_pow10_monotonic(20, j);
        assert(s.0 * pow10(j) >= pow10(j)) by (nonlinear_arith)
            requires
                s.0 >= 1,
                pow10(j) >= 1,
        ;
    }
}

impl Decimal {
    #[verifier::type_invariant]
    spec fn canonical(self) -> bool {
        if self.mag == 0 {
            !self.neg && self.exp == 0
        } else {
            self.mag % 10 != 0
        }
    }

    /// The number `mant·10^exp`.
    pub fn new(mant: i64, exp: i32) -> (r: Decimal)
        ensures
            r@ == normalize(mant as int, exp as int),
    {
        let mag: u64 = if mant < 0 {
            (-(mant as i128)) as u64
        } else {
            mant as u64
        };
        let (m, e) = strip_zeros(mag, exp as i128);
        Decimal::from_parts(mant < 0, m, e)
    }

    /// The sign, magnitude and exponent of the canonical form.
    pub(crate) fn parts(&self) -> (r: (bool, u64, i64))
        ensures
            self@ == (if r.0 { -(r.1 as int) } else { r.1 as int }, r.2 as int),
            r.1 == 0 ==> !r.0 && r.2 == 0,
            r.1 != 0 ==> r.1 % 10 != 0,
    {
        proof {
            use_type_invariant(self);
        }
        (self.neg, self.mag, self.exp)
    }

    /// Whether the two numbers are equal.
    pub fn same_value(&self, other: &Decimal) -> (r: bool)
        ensures
            r == (self@ == other@),
    {
        proof {
            use_type_invariant(self);
            use_type_invariant(other);
        }
        self.neg == other.neg && self.mag == other.mag && self.exp == other.exp
    }

    /// Builds the value `±m·10^e` from a stripped magnitude.
    pub(crate) fn from_parts(neg: bool, m: u64, e: i128) -> (r: Decimal)
        requires
            m == 0 ==> e == 0,
            m != 0 ==> m % 10 != 0,
            i64::MIN <= e <= i64::MAX,
        ensures
            r@ == (if neg { -(m as int) } else { m as int }, e as int),
    {
        Decimal { neg: neg && m != 0, mag: m, exp: e as i64 }
    }

    /// Zero.
    pub fn zero() -> (r: Decimal)
        ensures
            r@ == (0int, 0int),
    {
        Decimal { neg: false, mag: 0, exp: 0 }
    }

    /// Whether the number is below zero.
    pub fn is_negative(&self) -> (r: bool)
        ensures
            r == (self@.0 < 0),
    {
        proof {
            use_type_invariant(self);
        }
        self.neg
    }

    /// The magnitude of the canonical mantissa.
    pub fn magnitude(&self) -> (r: u64)
        ensures
            r as int == if self@.0 < 0 { -self@.0 } else { self@.0 },
    {
        proof {
            use_type_invariant(self);
        }
        self.mag
    }

    /// The canonical exponent.
    pub fn exponent(&self) -> (r: i64)
        ensures
            r as int == self@.1,
    {
        self.exp
    }
}

/// `strip` on machine integers.
pub(crate) fn strip_zeros(mag: u64, exp: i128) -> (r: (u64, i128))
    requires
        -0x4000_0000_0000_0000_0000_0000_0000 <= exp <= 0x4000_0000_0000_0000_0000_0000_0000,
    ensures
        (r.0 as nat, r.1 as int) == strip(mag as nat, exp as int),
        r.0 == 0 ==> r.1 == 0,
        r.0 != 0 ==> r.0 % 10 != 0 && exp <= r.1 <= exp + 19,
        r.0 <= mag,
{
    proof {
        lemma_strip(mag as nat, exp as int);
    }
    if mag == 0 {
        return (0, 0);
    }
    let mut m: u64 = mag;
    let mut e: i128 = exp;
    proof {
        lemma_pow10_20();
    }
    while m % 10 == 0
        invariant
            m > 0,
            exp <= e,
            strip(m as nat, e as int) == strip(mag as nat, exp as int),
            m * pow10((e - exp) as nat) == mag,
            pow10(20) == 100_000_000_000_000_000_000,
            -0x4000_0000_0000_0000_0000_0000_0000 <= exp <= 0x4000_0000_0000_0000_0000_0000_0000,
        decreases m,
    {
        proof {
            lemma_pow10_positive((e - exp) as nat);
            if e - exp >= 20 {
                lemma_pow10_monotonic(20, (e - exp) as nat);
                assert(m * pow10((e - exp) as nat) >= pow10((e - exp) as nat)) by (nonlinear_arith)
                    requires
                        m >= 1,
                        pow10((e - exp) as nat) >= 1,
                ;
            }
            let p = pow10((e - exp) as nat);
            assert((m / 10) * pow10((e + 1 - exp) as nat) == m * p) by (nonlinear_arith)
                requires
                    m % 10 == 0,
                    pow10((e + 1 - exp) as nat) == 10 * p,
            ;
        }
        m = m / 10;
        e = e + 1;
    }
    proof {
        lemma_strip(m as nat, e as int);
        lemma_pow10_positive((e - exp) as nat);
        if e - exp >= 20 {
            lemma_pow10_monotonic(20, (e - exp) as nat);
            assert(m * pow10((e - exp) as nat) >= pow10((e - exp) as nat)) by (nonlinear_arith)
                requires
                    m >= 1,
                    pow10((e - exp) as nat) >= 1,
            ;
        }
    }
    (m, e)
}

} // verus!
