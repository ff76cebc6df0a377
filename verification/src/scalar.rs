//! Element types that have an additive zero.

use num::traits::Zero;
use vstd::prelude::*;

verus! {

/// An element type with an additive zero.
///
/// Sparse storage leaves out every element that is the zero of its type, so it
/// has to produce that zero and to recognise it.
pub trait Scalar: Copy {
    /// The additive zero of the type.
    spec fn zero_spec() -> Self;

    /// Returns the additive zero.
    fn zero() -> (z: Self)
        ensures
            z == Self::zero_spec(),
    ;

    /// Tells whether `self` is the additive zero.
    fn is_zero(&self) -> (b: bool)
        ensures
            b == (*self == Self::zero_spec()),
    ;
}

/// Trusted: `num::traits::Zero::zero` on a primitive integer type. The `num`
/// crate implements `Zero` for the twelve primitive integer types with the
/// literal `0` as the value returned; the bound admits no other type.
#[verifier::external_body]
fn integer_zero<T: Zero + Integer>() -> (z: T)
    ensures
        z as int == 0,
{
    T::zero()
}

/// Trusted: `num::traits::Zero::is_zero` on a primitive integer type, which
/// `num` defines as the comparison of the value with the literal `0`.
#[verifier::external_body]
fn integer_is_zero<T: Zero + Integer>(x: T) -> (b: bool)
    ensures
        b == (x as int == 0),
{
    x.is_zero()
}

impl Scalar for i8 {
    open spec fn zero_spec() -> i8 {
        0
    }

    fn zero() -> i8 {
        integer_zero::<i8>()
    }

    fn is_zero(&self) -> bool {
        integer_is_zero::<i8>(*self)
    }
}

impl Scalar for i16 {
    open spec fn zero_spec() -> i16 {
        0
    }

    fn zero() -> i16 {
        integer_zero::<i16>()
    }

    fn is_zero(&self) -> bool {
        integer_is_zero::<i16>(*self)
    }
}

impl Scalar for i32 {
    open spec fn zero_spec() -> i32 {
        0
    }

    fn zero() -> i32 {
        integer_zero::<i32>()
    }

    fn is_zero(&self) -> bool {
        integer_is_zero::<i32>(*self)
    }
}

impl Scalar for i64 {
    open spec fn zero_spec() -> i64 {
        0
    }

    fn zero() -> i64 {
        integer_zero::<i64>()
    }

    fn is_zero(&self) -> bool {
        integer_is_zero::<i64>(*self)
    }
}

impl Scalar for i128 {
    open spec fn zero_spec() -> i128 {
        0
    }

    fn zero() -> i128 {
        integer_zero::<i128>()
    }

    fn is_zero(&self) -> bool {
        integer_is_zero::<i128>(*self)
    }
}

impl Scalar for isize {
    open spec fn zero_spec() -> isize {
        0
    }

    fn zero() -> isize {
        integer_zero::<isize>()
    }

    fn is_zero(&self) -> bool {
        integer_is_zero::<isize>(*self)
    }
}

impl Scalar for u8 {
    open spec fn zero_spec() -> u8 {
        0
    }

    fn zero() -> u8 {
        integer_zero::<u8>()
    }

    fn is_zero(&self) -> bool {
        integer_is_zero::<u8>(*self)
    }
}

impl Scalar for u16 {
    open spec fn zero_spec() -> u16 {
        0
    }

    fn zero() -> u16 {
        integer_zero::<u16>()
    }

    fn is_zero(&self) -> bool {
        integer_is_zero::<u16>(*self)
    }
}

impl Scalar for u32 {
    open spec fn zero_spec() -> u32 {
        0
    }

    fn zero() -> u32 {
        integer_zero::<u32>()
    }

    fn is_zero(&self) -> bool {
        integer_is_zero::<u32>(*self)
    }
}

impl Scalar for u64 {
    open spec fn zero_spec() -> u64 {
        0
    }

    fn zero() -> u64 {
        integer_zero::<u64>()
    }

    fn is_zero(&self) -> bool {
        integer_is_zero::<u64>(*self)
    }
}

impl Scalar for u128 {
    open spec fn zero_spec() -> u128 {
        0
    }

    fn zero() -> u128 {
        integer_zero::<u128>()
    }

    fn is_zero(&self) -> bool {
        integer_is_zero::<u128>(*self)
    }
}

impl Scalar for usize {
    open spec fn zero_spec() -> usize {
        0
    }

    fn zero() -> usize {
        integer_zero::<usize>()
    }

    fn is_zero(&self) -> bool {
        integer_is_zero::<usize>(*self)
    }
}

} // verus!
