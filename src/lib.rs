//! Approximate equality and rounding of numbers, to a count of fraction digits or of
//! significant figures, lifted over optional, fallible and complex values.
//!
//! Numbers are exact decimals (`Decimal`); a float enters as the decimal it prints as.

pub mod approx_eq;
pub mod approx_eq_dec;
pub mod approx_eq_sf;
pub mod complex;
pub mod decimal;
pub mod not_approx_eq_dec;
pub mod not_approx_eq_sf;
pub mod round_float;
pub mod round_sf;
pub mod scale;
pub mod text;

pub use approx_eq::aeq;
pub use approx_eq_dec::ApproxEq;
pub use approx_eq_sf::ApproxEqSf;
pub use complex::Complex;
pub use decimal::Decimal;
pub use not_approx_eq_dec::NApproxEq;
pub use not_approx_eq_sf::NApproxEqSf;
pub use round_float::RoundToFraction;
pub use round_sf::RoundToSigDig;
