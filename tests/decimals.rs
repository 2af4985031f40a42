use anyhow::Error;

use approx_round::{aeq, ApproxEq, Decimal, NApproxEq, RoundToFraction};

// Both values are rounded before they are compared: at seven digits the first reads
// 100.1234568 and the second 100.1234567, so they differ there as well as at eight.

#[test]
fn approx_eq_five_digits() {
    let a = Decimal::new(100_123_456_789, -9);
    let b = Decimal::new(100_123_456_712, -9);

    assert!(!aeq(a, b, 7));
    assert!(!aeq(a, b, 8));
    assert!(aeq(a, b, 6));
}

#[test]
fn round_float_five_digits() {
    let before = Decimal::new(100_123_456_789, -9);
    let after = before.round_to_fraction(5);
    assert_eq!(after, Decimal::new(10_012_346, -5));
}

#[test]
fn aeq_f64() {
    let a = Decimal::new(100_123_456_789, -9);
    let b = Decimal::new(100_123_456_712, -9);

    assert!(!a.aeq(b, 7));
    assert!(!a.aeq(b, 8));
}

#[test]
fn aeq_option_f64() {
    let a = Some(Decimal::new(100_123_456_789, -9));
    let b = Some(Decimal::new(100_123_456_712, -9));
    assert!(!a.aeq(b, 7));
    assert!(!a.aeq(b, 8));

    let a = None::<Decimal>;
    let b = None;
    assert!(a.aeq(b, 0));

    let a = Some(Decimal::new(100_123_456_789, -9));
    let b = None;
    assert!(!a.aeq(b, 0));

    let a = None;
    let b = Some(Decimal::new(100_123_456_789, -9));
    assert!(!a.aeq(b, 0));
}

#[test]
fn aeq_result_f64() {
    let a = Ok::<Decimal, Error>(Decimal::new(100_123_456_789, -9));
    let b = Ok::<Decimal, Error>(Decimal::new(100_123_456_712, -9));
    assert!(!a.aeq(b, 7));

    let a = Ok::<Decimal, Error>(Decimal::new(100_123_456_789, -9));
    let b = Ok::<Decimal, Error>(Decimal::new(100_123_456_712, -9));
    assert!(!a.aeq(b, 8));

    let a = Err::<Decimal, Error>(Error::msg(""));
    let b = Err(Error::msg(""));
    assert!(a.aeq(b, 0));

    let a = Ok::<Decimal, Error>(Decimal::new(100_123_456_789, -9));
    let b = Err(Error::msg(""));
    assert!(!a.aeq(b, 0));

    let a = Err(Error::msg(""));
    let b = Ok::<Decimal, Error>(Decimal::new(100_123_456_789, -9));
    assert!(!a.aeq(b, 0));
}

#[test]
fn aeq_f32() {
    let a = Decimal::new(10_012_345, -5);
    let b = Decimal::new(10_012_331, -5);

    assert!(a.aeq(b, 3));
    assert!(!a.aeq(b, 4));
}

#[test]
fn aeq_option_f32() {
    let a = Some(Decimal::new(1_006_789, -4));
    let b = Some(Decimal::new(1_006_712, -4));
    assert!(!a.aeq(b, 2));
    assert!(!a.aeq(b, 3));
    assert!(a.aeq(b, 1));

    let a = None::<Decimal>;
    let b = None;
    assert!(a.aeq(b, 0));

    let a = Some(Decimal::new(1_006_789, -4));
    let b = None;
    assert!(!a.aeq(b, 0));

    let a = None;
    let b = Some(Decimal::new(1_006_712, -4));
    assert!(!a.aeq(b, 0));
}

#[test]
fn aeq_result_f32() {
    let a = Ok::<Decimal, Error>(Decimal::new(10_045_678, -5));
    let b = Ok::<Decimal, Error>(Decimal::new(10_045_671, -5));
    assert!(!a.aeq(b, 4));

    let a = Ok::<Decimal, Error>(Decimal::new(10_045_678, -5));
    let b = Ok::<Decimal, Error>(Decimal::new(10_045_671, -5));
    assert!(!a.aeq(b, 5));

    let a = Err::<Decimal, Error>(Error::msg(""));
    let b = Err(Error::msg(""));
    assert!(a.aeq(b, 0));

    let a = Ok::<Decimal, Error>(Decimal::new(10_045_678, -5));
    let b = Err(Error::msg(""));
    assert!(!a.aeq(b, 0));

    let a = Err(Error::msg(""));
    let b = Ok::<Decimal, Error>(Decimal::new(10_045_678, -5));
    assert!(!a.aeq(b, 0));
}

#[test]
fn nae_f64() {
    let a = Decimal::new(100_123_456_789, -9);
    let b = Decimal::new(100_123_456_712, -9);

    assert!(a.nae(b, 7));
    assert!(a.nae(b, 8));
}

#[test]
fn nae_option_f64() {
    let a = Some(Decimal::new(100_123_456_789, -9));
    let b = Some(Decimal::new(100_123_456_712, -9));
    assert!(a.nae(b, 7));
    assert!(a.nae(b, 8));

    let a = None::<Decimal>;
    let b = None;
    assert!(!a.nae(b, 0));

    let a = Some(Decimal::new(100_123_456_789, -9));
    let b = None;
    assert!(a.nae(b, 0));

    let a = None;
    let b = Some(Decimal::new(100_123_456_789, -9));
    assert!(a.nae(b, 0));
}

#[test]
fn nae_result_f64() {
    let a = Ok::<Decimal, Error>(Decimal::new(100_123_456_789, -9));
    let b = Ok::<Decimal, Error>(Decimal::new(100_123_456_712, -9));
    assert!(a.nae(b, 7));

    let a = Ok::<Decimal, Error>(Decimal::new(100_123_456_789, -9));
    let b = Ok::<Decimal, Error>(Decimal::new(100_123_456_712, -9));
    assert!(a.nae(b, 8));

    let a = Err::<Decimal, Error>(Error::msg(""));
    let b = Err(Error::msg(""));
    assert!(!a.nae(b, 0));

    let a = Ok::<Decimal, Error>(Decimal::new(100_123_456_789, -9));
    let b = Err(Error::msg(""));
    assert!(a.nae(b, 0));

    let a = Err(Error::msg(""));
    let b = Ok::<Decimal, Error>(Decimal::new(100_123_456_789, -9));
    assert!(a.nae(b, 0));
}

#[test]
fn nae_f32() {
    let a = Decimal::new(10_012_345, -5);
    let b = Decimal::new(10_012_331, -5);

    assert!(!a.nae(b, 3));
    assert!(a.nae(b, 4));
}

#[test]
fn nae_option_f32() {
    let a = Some(Decimal::new(1_006_789, -4));
    let b = Some(Decimal::new(1_006_712, -4));
    assert!(a.nae(b, 2));
    assert!(a.nae(b, 3));
    assert!(!a.nae(b, 1));

    let a = None::<Decimal>;
    let b = None;
    assert!(!a.nae(b, 0));

    let a = Some(Decimal::new(1_006_789, -4));
    let b = None;
    assert!(a.nae(b, 0));

    let a = None;
    let b = Some(Decimal::new(1_006_712, -4));
    assert!(a.nae(b, 0));
}

#[test]
fn nae_result_f32() {
    let a = Ok::<Decimal, Error>(Decimal::new(10_045_678, -5));
    let b = Ok::<Decimal, Error>(Decimal::new(10_045_671, -5));
    assert!(a.nae(b, 4));

    let a = Ok::<Decimal, Error>(Decimal::new(10_045_678, -5));
    let b = Ok::<Decimal, Error>(Decimal::new(10_045_671, -5));
    assert!(a.nae(b, 5));

    let a = Err::<Decimal, Error>(Error::msg(""));
    let b = Err(Error::msg(""));
    assert!(!a.nae(b, 0));

    let a = Ok::<Decimal, Error>(Decimal::new(10_045_678, -5));
    let b = Err(Error::msg(""));
    assert!(a.nae(b, 0));

    let a = Err(Error::msg(""));
    let b = Ok::<Decimal, Error>(Decimal::new(10_045_678, -5));
    assert!(a.nae(b, 0));
}
