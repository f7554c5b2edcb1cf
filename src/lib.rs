//! Residual and infeasibility-certificate engine for a primal-dual
//! interior-point method on the homogeneous self-dual embedding of a convex
//! conic program with a quadratic objective.
//!
//! All quantities are held in exact integer arithmetic: problem data and
//! iterates are `i64` values of bounded magnitude (see [`MAX_ENTRY`] and
//! [`MAX_DIM`]), and every residual is computed without rounding into `i128`.

pub mod data;
pub mod laws;
pub mod linalg;
pub mod residuals;

pub use data::{ConeBlock, ConeKind, DefaultProblemData, DefaultVariables};
pub use linalg::{MAX_DIM, MAX_ENTRY};
pub use residuals::{DefaultResiduals, ResidualError, TAU_FLOOR};
