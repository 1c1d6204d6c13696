//! A verified amortization engine for fixed-principal installment loans.
//!
//! A [`schedule::Loan`] produces an ordered payment schedule and accepts two
//! in-place adjustments: a mid-schedule interest-rate change and an early
//! principal payment that either shortens the term or reduces the installment.

pub mod date;
pub mod laws;
pub mod rounding;
pub mod schedule;
