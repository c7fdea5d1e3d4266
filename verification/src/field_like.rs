//! What a constraint evaluator asks of the values it works on.
//!
//! Constraints are written once and evaluated on base-field values, on
//! extension-field values at a point outside the domain, or on anything else
//! that offers these operations, such as the handle of a polynomial.
//!
//! What an operation gives is named by a function of the interface. A type
//! that says nothing of it leaves it open: its values are then told apart by
//! the operations that made them.

use vstd::prelude::*;

use crate::m31::M31;

verus! {

pub trait FieldLike: Sized {
    /// The value that stands for the base-field residue `x`.
    open spec fn spec_from_m31(x: int) -> Self {
        arbitrary()
    }

    open spec fn spec_add(self, rhs: Self) -> Self {
        arbitrary()
    }

    open spec fn spec_sub(self, rhs: Self) -> Self {
        arbitrary()
    }

    open spec fn spec_mul(self, rhs: Self) -> Self {
        arbitrary()
    }

    open spec fn spec_neg(self) -> Self {
        arbitrary()
    }

    /// The same value once more.
    fn duplicate(&self) -> (r: Self)
        ensures
            r == *self,
    ;

    fn zero() -> (r: Self)
        ensures
            r == Self::spec_from_m31(0),
    ;

    fn one() -> (r: Self)
        ensures
            r == Self::spec_from_m31(1),
    ;

    fn from_m31(x: M31) -> (r: Self)
        ensures
            r == Self::spec_from_m31(x@),
    ;

    fn add(&self, rhs: &Self) -> (r: Self)
        ensures
            r == self.spec_add(*rhs),
    ;

    fn sub(&self, rhs: &Self) -> (r: Self)
        ensures
            r == self.spec_sub(*rhs),
    ;

    fn mul(&self, rhs: &Self) -> (r: Self)
        ensures
            r == self.spec_mul(*rhs),
    ;

    fn neg(&self) -> (r: Self)
        ensures
            r == self.spec_neg(),
    ;
}

} // verus!
