//! Dense row-major matrices with verified construction, element access,
//! elementwise and matrix products, a restricted dot product and rendering.

pub mod element;
pub mod mat;
pub mod laws;
mod parallel;
