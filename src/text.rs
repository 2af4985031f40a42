use vstd::prelude::*;

use crate::decimal::{lemma_strip_shift_bound, normalize, strip_zeros, Decimal};

verus! {

/// Beyond this an exponent puts every nonzero number out of range.
pub const EXP_LIMIT: u128 = 0x10_0000_0000_0000_0000_0000_0000;

/// Whether `b` is an ASCII decimal digit.
pub open spec fn is_digit(b: u8) -> bool {
    48 <= b <= 57
}

/// The number that the decimal digits `s` spell.
pub open spec fn digits_value(s: Seq<u8>) -> nat
    decreases s.len(),
{
    if s.len() == 0 {
        0
    } else {
        digits_value(s.drop_last()) * 10 + (s.last() - 48) as nat
    }
}

/// The end of the run of digits of `s` that starts at `i`.
pub open spec fn run_end(s: Seq<u8>, i: int) -> int
    decreases s.len() - i,
{
    if 0 <= i < s.len() && is_digit(s[i]) {
        run_end(s, i + 1)
    } else {
        i
    }
}

/// The pieces of a text `[-]digits[.digits][e[-]digits]`: whether it is negative, the
/// digits of its mantissa with the point left out, how many of them follow the point,
/// whether its exponent is negative, and the digits of the exponent. `None` for a text
/// of any other shape.
pub open spec fn scan(s: Seq<u8>) -> Option<(bool, Seq<u8>, nat, bool, Seq<u8>)> {
    let a: int = if s.len() > 0 && s[0] == 45 {
        1
    } else {
        0
    };
    let b = run_end(s, a);
    let has_point = b < s.len() && s[b] == 46;
    let c = if has_point {
        run_end(s, b + 1)
    } else {
        b
    };
    let has_exp = c < s.len();
    let eneg = has_exp && c + 1 < s.len() && s[c + 1] == 45;
    let d: int = if eneg {
        c + 2
    } else {
        c + 1
    };
    let f = if has_exp {
        run_end(s, d)
    } else {
        c
    };
    if b == a || (has_point && c == b + 1) || (has_exp && (s[c] != 101 || f == d || f != s.len())) {
        None
    } else {
        Some(
            (
                a == 1,
                s.subrange(a, b) + if has_point {
                    s.subrange(b + 1, c)
                } else {
                    Seq::empty()
                },
                (if has_point {
                    c - (b + 1)
                } else {
                    0
                }) as nat,
                eneg,
                if has_exp {
                    s.subrange(d, f)
                } else {
                    Seq::empty()
                },
            ),
        )
    }
}

/// The number `(mantissa, exponent)` that the scanned pieces of a text denote.
pub open spec fn scanned_number(p: (bool, Seq<u8>, nat, bool, Seq<u8>)) -> (int, int) {
    let m = digits_value(p.1) as int;
    let e = digits_value(p.4) as int;
    (if p.0 {
        -m
    } else {
        m
    }, (if p.3 {
        -e
    } else {
        e
    }) - p.2)
}

/// Whether a text of the right shape also fits a `Decimal`: its mantissa digits spell at
/// most `u64::MAX` and the canonical exponent lies within `i64`.
pub open spec fn scanned_fits(p: (bool, Seq<u8>, nat, bool, Seq<u8>)) -> bool {
    let v = normalize(scanned_number(p).0, scanned_number(p).1);
    digits_value(p.1) <= u64::MAX && i64::MIN <= v.1 <= i64::MAX
}

proof fn lemma_digits_push(s: Seq<u8>, b: u8)
    ensures
        digits_value(s.push(b)) == digits_value(s) * 10 + (b - 48) as nat,
{
    assert(s.push(b).drop_last() =~= s);
}

/// Scans the run of digits of `text` from `start`, adding them to the number `acc`
/// that `ds` spells; `None` once that number passes `limit`.
fn scan_digits(
    text: &[u8],
    start: usize,
    acc: Option<u128>,
    limit: u128,
    Ghost(ds): Ghost<Seq<u8>>,
) -> (r: (usize, Option<u128>, Ghost<Seq<u8>>))
    requires
        start <= text.len(),
        limit <= EXP_LIMIT,
        acc is Some ==> acc->0 == digits_value(ds) && acc->0 <= limit,
        acc is None ==> digits_value(ds) > limit,
    ensures
        r.0 == run_end(text@, start as int),
        start <= r.0 <= text.len(),
        r.2@ == ds + text@.subrange(start as int, r.0 as int),
        r.1 is Some ==> r.1->0 == digits_value(r.2@) && r.1->0 <= limit,
        r.1 is None ==> digits_value(r.2@) > limit,
{
    let mut i = start;
    let mut acc = acc;
    let ghost mut got = ds;
    while i < text.len() && 48 <= text[i] && text[i] <= 57
        invariant
            start <= i <= text.len(),
            limit <= EXP_LIMIT,
            run_end(text@, start as int) == run_end(text@, i as int),
            got == ds + text@.subrange(start as int, i as int),
            acc is Some ==> acc->0 == digits_value(got) && acc->0 <= limit,
            acc is None ==> digits_value(got) > limit,
        decreases text.len() - i,
    {
        let d = (text[i] - 48) as u128;
        proof {
            lemma_digits_push(got, text[i as int]);
            assert(ds + text@.subrange(start as int, i + 1) =~= (ds + text@.subrange(
                start as int,
                i as int,
            )).push(text[i as int]));
        }
        acc = match acc {
            Some(m) => if d > limit || m > (limit - d) / 10 {
                None
            } else {
                Some(m * 10 + d)
            },
            None => None,
        };
        proof {
            got = got.push(text[i as int]);
        }
        i = i + 1;
    }
    (i, acc, Ghost(got))
}

impl Decimal {
    /// Reads a number written `[-]digits[.digits][e[-]digits]`, as Rust writes a float
    /// with `{:e}` (or with `{}`, which leaves the exponent out). `None` when the text has
    /// another shape, when its mantissa digits spell more than `u64::MAX`, or when the
    /// canonical exponent falls outside `i64`.
    pub fn parse(text: &[u8]) -> (r: Option<Decimal>)
        ensures
            match scan(text@) {
                None => r is None,
                Some(p) => if scanned_fits(p) {
                    r is Some && r->0@ == normalize(scanned_number(p).0, scanned_number(p).1)
                } else {
                    r is None
                },
            },
    {
        let n = text.len();
        let neg = n > 0 && text[0] == 45;
        let a: usize = if neg {
            1
        } else {
            0
        };
        let (b, acc, Ghost(int_digits)) = scan_digits(text, a, Some(0), u64::MAX as u128, Ghost(Seq::empty()));
        if b == a {
            return None;
        }
        let has_point = b < n && text[b] == 46;
        let (c, acc, Ghost(mant_digits)) = if has_point {
            scan_digits(text, b + 1, acc, u64::MAX as u128, Ghost(int_digits))
        } else {
            (b, acc, Ghost(int_digits))
        };
        if has_point && c == b + 1 {
            return None;
        }
        let frac_len: usize = if has_point {
            c - (b + 1)
        } else {
            0
        };
        let has_exp = c < n;
        let eneg = has_exp && c + 1 < n && text[c + 1] == 45;
        let d: usize = if eneg {
            c + 2
        } else if has_exp {
            c + 1
        } else {
            c
        };
        let (f, ev, Ghost(exp_digits)) = if has_exp {
            if text[c] != 101 {
                return None;
            }
            scan_digits(text, d, Some(0), EXP_LIMIT, Ghost(Seq::empty()))
        } else {
            (c, Some(0u128), Ghost(Seq::empty()))
        };
        if has_exp && (f == d || f != n) {
            return None;
        }
        assert(mant_digits =~= text@.subrange(a as int, b as int) + if has_point {
            text@.subrange(b + 1, c as int)
        } else {
            Seq::empty()
        });
        assert(exp_digits =~= if has_exp {
            text@.subrange(d as int, f as int)
        } else {
            Seq::empty()
        });
        let ghost p = scan(text@)->0;
        let m = match acc {
            Some(m) => m as u64,
            None => return None,
        };
        if m == 0 {
            return Some(Decimal::zero());
        }
        let e = match ev {
            Some(e) => e,
            None => {
                proof {
                    lemma_strip_shift_bound(m as nat, scanned_number(p).1);
                }
                return None;
            },
        };
        let te: i128 = if eneg {
            -(e as i128) - frac_len as i128
        } else {
            e as i128 - frac_len as i128
        };
        let (sm, se) = strip_zeros(m, te);
        if se < i64::MIN as i128 || se > i64::MAX as i128 {
            return None;
        }
        Some(Decimal::from_parts(neg, sm, se))
    }
}

} // verus!
