//! Numerov integration of one-dimensional equations of the form
//! y'' = -g(x) y(x) over uniformly sampled domains, together with the
//! discrete integration and normalization kernel for complex-valued
//! sampled fields of one, two or three dimensions.
//!
//! All arithmetic is carried out in an exact fixed-point representation
//! ([`fx::Fx`]), so every numeric result of the library is pinned down,
//! value for value, by the contracts.

pub mod complex;
pub mod field;
pub mod fx;
pub mod grid;
