//! A dense, row-major matrix whose shape and index logic is verified.
//!
//! The grid is generic over its element type; arithmetic on elements is
//! handed in by the caller, so every contract here holds for any element
//! type and any operator.
pub mod algebra;
pub mod matrix;
pub mod matrix_ops;
