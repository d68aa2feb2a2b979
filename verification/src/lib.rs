//! Bézier curves of arbitrary order over an exact rational scalar.
//!
//! The curve mathematics (Bernstein-basis interpolation, derivatives and
//! degree elevation) is carried out exactly over rationals held in machine
//! words; a query whose exact result no longer fits the word reports
//! `BevError::ValueOverflow` instead of rounding.

use vstd::prelude::*;

pub mod rat;
pub mod coeff;
pub mod point;
pub mod chain;
pub mod nbez;
pub mod fixed;

verus! {

/// Everything that a validating constructor or a bounds-checked query can
/// report.
///
/// `InvalidLength` and `BadNodePattern` come from chain validation,
/// `DomainError` from a bounds-checked query with `t` outside `[0, 1]`,
/// `OrderOverflow` from a curve order too large for exact combinatorics,
/// and `ValueOverflow` from an exact rational result that no longer fits
/// the machine word.
#[derive(Debug, Clone, Copy, PartialEq, Eq, Structural)]
pub enum BevError {
    BadNodePattern,
    InvalidLength,
    DomainError,
    OrderOverflow,
    ValueOverflow,
}

} // verus!
