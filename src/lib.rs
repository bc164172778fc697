//! Exact multiply-and-truncate for binary floating-point values.
//!
//! `mul_to_int` multiplies two finite floating-point values and returns the
//! integer part of their exact product, computed on the integer significands
//! so that no rounding happens anywhere. The fractional part is truncated
//! toward zero. Values are handled through their IEEE 754 bit patterns
//! (`Float32` for binary32, `Float64` for binary64).
use vstd::prelude::*;

pub mod float32;
pub mod float64;
pub mod model;

pub use float32::Float32;
pub use float64::Float64;

verus! {

/// The integer part of a product does not fit into the output type.
#[derive(Debug, Clone, Copy, PartialEq, Eq, Structural)]
pub struct Overflow;

impl Overflow {
    /// Human-readable description of the error.
    pub fn description(&self) -> (r: String)
        ensures
            r@ == "integer overflow"@,
    {
        proof {
            reveal_strlit("integer overflow");
        }
        String::from_str("integer overflow")
    }
}

/// Floating-point values whose exact product with one another can be
/// truncated to an integer.
pub trait FloatMulToInt: Sized {
    /// Integer output type.
    type Output;

    /// The value is neither infinite nor NaN.
    spec fn finite(&self) -> bool;

    /// Multiplies `self` by `other` and returns the integer part of the exact
    /// product; the fractional part is truncated toward zero. Returns
    /// `Overflow` where the integer part does not fit into `Output`.
    fn mul_to_int(self, other: Self) -> (r: Result<Self::Output, Overflow>)
        requires
            self.finite(),
            other.finite(),
    ;
}

} // verus!
