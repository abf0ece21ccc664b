//! The algebraic trait hierarchy the library declares for its users to
//! implement on element types. The core exercises none of it; the laws
//! the names promise (associativity, identities, inverses) are left to
//! the implementors.

use vstd::prelude::*;

verus! {

/// A set closed under one binary operation.
pub trait Magma: Sized {
    /// The binary operation.
    fn op(&self, rhs: &Self) -> Self;
}

/// A magma whose operation the implementor warrants associative.
pub trait Semigroup: Magma {

}

/// A semigroup with an identity element.
pub trait Monoid: Semigroup {
    /// The identity element.
    fn identity() -> Self;
}

/// A monoid where every element has an inverse.
pub trait Group: Monoid {
    /// The inverse of this element.
    fn inverse(&self) -> Self;
}

/// A group whose operation the implementor warrants commutative.
pub trait AbelianGroup: Group {

}

/// An abelian group under addition paired with a multiplicative
/// semigroup, linked by distributivity.
pub trait Ring: AbelianGroup {
    /// The multiplicative operation.
    fn mul(&self, rhs: &Self) -> Self;
}

/// A ring whose multiplication the implementor warrants commutative.
pub trait CommutativeRing: Ring {

}

/// A commutative ring where every nonzero element has a multiplicative
/// inverse.
pub trait Field: CommutativeRing {
    /// Division by `rhs`.
    fn div(&self, rhs: &Self) -> Self;

    /// The multiplicative inverse of this element.
    fn inv(&self) -> Self;
}

} // verus!
