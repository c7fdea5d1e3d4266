//! The prime field of order 2^31 - 1.

use vstd::prelude::*;

use crate::field_like::FieldLike;

verus! {

/// The field's order, `2^31 - 1`.
pub const P: u32 = 2147483647;

/// The sum of two residues.
pub open spec fn add_mod(x: int, y: int) -> int {
    (x + y) % (P as int)
}

/// The difference of two residues.
pub open spec fn sub_mod(x: int, y: int) -> int {
    (x - y) % (P as int)
}

/// The product of two residues.
pub open spec fn mul_mod(x: int, y: int) -> int {
    (x * y) % (P as int)
}

/// The additive inverse of a residue.
pub open spec fn neg_mod(x: int) -> int {
    (-x) % (P as int)
}

/// An element of the field, held as its least non-negative residue.
#[derive(Clone, Copy, Debug, PartialEq, Eq, Structural)]
pub struct M31 {
    value: u32,
}

impl View for M31 {
    type V = int;

    closed spec fn view(&self) -> int {
        self.value as int
    }
}

/// `M31::from(u32)` of stwo: the residue of `v`.
#[verifier::external_body]
fn reduce_u32(v: u32) -> (r: u32)
    ensures
        r == v % P,
{
    stwo::core::fields::m31::M31::from(v).0
}

/// `M31 + M31` of stwo, on reduced operands: the reduced sum.
#[verifier::external_body]
fn add_reduced(x: u32, y: u32) -> (r: u32)
    requires
        x < P,
        y < P,
    ensures
        r == add_mod(x as int, y as int),
{
    (stwo::core::fields::m31::M31(x) + stwo::core::fields::m31::M31(y)).0
}

/// `M31 - M31` of stwo, on reduced operands: the reduced difference.
#[verifier::external_body]
fn sub_reduced(x: u32, y: u32) -> (r: u32)
    requires
        x < P,
        y < P,
    ensures
        r == sub_mod(x as int, y as int),
{
    (stwo::core::fields::m31::M31(x) - stwo::core::fields::m31::M31(y)).0
}

/// `M31 * M31` of stwo, on reduced operands: the reduced product.
#[verifier::external_body]
fn mul_reduced(x: u32, y: u32) -> (r: u32)
    requires
        x < P,
        y < P,
    ensures
        r == mul_mod(x as int, y as int),
{
    (stwo::core::fields::m31::M31(x) * stwo::core::fields::m31::M31(y)).0
}

/// `-M31` of stwo, on a reduced operand: the reduced negation.
#[verifier::external_body]
fn neg_reduced(x: u32) -> (r: u32)
    requires
        x < P,
    ensures
        r == neg_mod(x as int),
{
    (-stwo::core::fields::m31::M31(x)).0
}

impl M31 {
    #[verifier::type_invariant]
    spec fn reduced(self) -> bool {
        self.value < P
    }

    /// The element that `v` stands for.
    pub fn from_u32(v: u32) -> (r: M31)
        ensures
            r@ == v % P,
    {
        let value: u32 = reduce_u32(v);
        M31 { value }
    }

    /// The element with residue `v`.
    pub fn from_u32_unchecked(v: u32) -> (r: M31)
        requires
            v < P,
        ensures
            r@ == v,
    {
        M31 { value: v }
    }

    pub fn zero() -> (r: M31)
        ensures
            r@ == 0,
    {
        M31 { value: 0 }
    }

    pub fn one() -> (r: M31)
        ensures
            r@ == 1,
    {
        M31 { value: 1 }
    }

    /// The least non-negative residue.
    pub fn value(&self) -> (v: u32)
        ensures
            v == self@,
            v < P,
    {
        proof {
            use_type_invariant(self);
        }
        self.value
    }

    pub fn add(&self, rhs: &M31) -> (r: M31)
        ensures
            r@ == add_mod(self@, rhs@),
    {
        proof {
            use_type_invariant(self);
            use_type_invariant(rhs);
        }
        M31 { value: add_reduced(self.value, rhs.value) }
    }

    pub fn sub(&self, rhs: &M31) -> (r: M31)
        ensures
            r@ == sub_mod(self@, rhs@),
    {
        proof {
            use_type_invariant(self);
            use_type_invariant(rhs);
        }
        M31 { value: sub_reduced(self.value, rhs.value) }
    }

    pub fn mul(&self, rhs: &M31) -> (r: M31)
        ensures
            r@ == mul_mod(self@, rhs@),
    {
        proof {
            use_type_invariant(self);
            use_type_invariant(rhs);
        }
        M31 { value: mul_reduced(self.value, rhs.value) }
    }

    pub fn neg(&self) -> (r: M31)
        ensures
            r@ == neg_mod(self@),
    {
        proof {
            use_type_invariant(self);
        }
        M31 { value: neg_reduced(self.value) }
    }
}

impl M31 {
    /// The element with residue `x % P`.
    pub closed spec fn of(x: int) -> M31 {
        M31 { value: (x % (P as int)) as u32 }
    }

    /// `of` has the residue it is given.
    pub broadcast proof fn lemma_of(x: int)
        ensures
            (#[trigger] M31::of(x))@ == x % (P as int),
    {
    }
}

impl FieldLike for M31 {
    open spec fn spec_from_m31(x: int) -> M31 {
        M31::of(x)
    }

    open spec fn spec_add(self, rhs: M31) -> M31 {
        M31::of(self@ + rhs@)
    }

    open spec fn spec_sub(self, rhs: M31) -> M31 {
        M31::of(self@ - rhs@)
    }

    open spec fn spec_mul(self, rhs: M31) -> M31 {
        M31::of(self@ * rhs@)
    }

    open spec fn spec_neg(self) -> M31 {
        M31::of(-self@)
    }

    fn duplicate(&self) -> (r: M31) {
        *self
    }

    fn zero() -> (r: M31) {
        M31 { value: 0 }
    }

    fn one() -> (r: M31) {
        M31 { value: 1 }
    }

    fn from_m31(x: M31) -> (r: M31) {
        proof {
            use_type_invariant(x);
        }
        x
    }

    fn add(&self, rhs: &M31) -> (r: M31) {
        proof {
            use_type_invariant(self);
            use_type_invariant(rhs);
        }
        M31 { value: add_reduced(self.value, rhs.value) }
    }

    fn sub(&self, rhs: &M31) -> (r: M31) {
        proof {
            use_type_invariant(self);
            use_type_invariant(rhs);
        }
        M31 { value: sub_reduced(self.value, rhs.value) }
    }

    fn mul(&self, rhs: &M31) -> (r: M31) {
        proof {
            use_type_invariant(self);
            use_type_invariant(rhs);
        }
        M31 { value: mul_reduced(self.value, rhs.value) }
    }

    fn neg(&self) -> (r: M31) {
        proof {
            use_type_invariant(self);
        }
        M31 { value: neg_reduced(self.value) }
    }
}

} // verus!
