//! Single-variable polynomial algebra over an abstract coefficient type:
//! canonical simplification, distributive multiplication, rendering, and the
//! Lagrange-interpolation and least-squares consumers built on them.
pub mod coefficient;
pub mod variable;
pub mod operand;
pub mod expression;
pub mod render;
pub mod fit_error;
pub mod interpolation;
pub mod regression;
