//! Predictive estimation core for a personal-finance tracker.
//!
//! The crate provides a budget-exceedance forecaster that projects a
//! budget's end-of-period spend from partial-period history, and a scalar
//! Kalman filter with a per-instrument fusion coordinator that combines
//! noisy, weighted rate observations into a single estimate with a
//! confidence value.  Money amounts are carried in integer cents; rates,
//! weights, variances and confidence values are carried in fixed-point
//! micro-units (1_000_000 = 1.0), so that every arithmetic step has an
//! exact, machine-checked contract.
//!
//! Around that core stand the backend's verifiable support pieces:
//! report aggregation, JWT claim handling, the service error type,
//! pagination arithmetic, the built-in category table, user settings,
//! and the connection retry policy.

pub mod auth;
pub mod budget_predictor;
pub mod calendar;
pub mod categories;
pub mod error;
pub mod fixed;
pub mod kalman_filter;
pub mod models;
pub mod pagination;
pub mod reports;
pub mod retry;
pub mod text;

pub use fixed::isqrt_u128;
