//! The degree-4 extension of the base field, in which challenges are drawn
//! and LogUp fractions are summed.
//!
//! An element is `(a + b i) + (c + d i) u` with `i^2 = -1` and `u^2 = 2 + i`.

use vstd::prelude::*;

use crate::field_like::FieldLike;
use crate::m31::{M31, P};

verus! {

/// The number of base-field coordinates of an element.
pub const SECURE_EXTENSION_DEGREE: usize = 4;

/// The four coordinates of an element, as integers.
pub struct SecureValue {
    pub a: int,
    pub b: int,
    pub c: int,
    pub d: int,
}

impl SecureValue {
    /// Every coordinate is a least non-negative residue.
    pub open spec fn reduced(self) -> bool {
        &&& 0 <= self.a < P
        &&& 0 <= self.b < P
        &&& 0 <= self.c < P
        &&& 0 <= self.d < P
    }

    /// The coordinates, each reduced.
    pub open spec fn reduce(self) -> SecureValue {
        SecureValue {
            a: self.a % (P as int),
            b: self.b % (P as int),
            c: self.c % (P as int),
            d: self.d % (P as int),
        }
    }

    pub open spec fn zero() -> SecureValue {
        SecureValue { a: 0, b: 0, c: 0, d: 0 }
    }

    pub open spec fn one() -> SecureValue {
        SecureValue { a: 1, b: 0, c: 0, d: 0 }
    }

    /// The base-field residue `x` as an element of the extension.
    pub open spec fn from_base(x: int) -> SecureValue {
        SecureValue { a: x, b: 0, c: 0, d: 0 }
    }

    /// The sum over the integers, coordinate by coordinate.
    pub open spec fn raw_add(self, rhs: SecureValue) -> SecureValue {
        SecureValue { a: self.a + rhs.a, b: self.b + rhs.b, c: self.c + rhs.c, d: self.d + rhs.d }
    }

    /// The difference over the integers, coordinate by coordinate.
    pub open spec fn raw_sub(self, rhs: SecureValue) -> SecureValue {
        SecureValue { a: self.a - rhs.a, b: self.b - rhs.b, c: self.c - rhs.c, d: self.d - rhs.d }
    }

    /// The product over the integers, with `i^2 = -1` and `u^2 = 2 + i`.
    pub open spec fn raw_mul(self, rhs: SecureValue) -> SecureValue {
        let x = self;
        let y = rhs;
        let re = x.c * y.c - x.d * y.d;
        let im = x.c * y.d + x.d * y.c;
        SecureValue {
            a: x.a * y.a - x.b * y.b + 2 * re - im,
            b: x.a * y.b + x.b * y.a + re + 2 * im,
            c: x.a * y.c - x.b * y.d + x.c * y.a - x.d * y.b,
            d: x.a * y.d + x.b * y.c + x.c * y.b + x.d * y.a,
        }
    }

    /// The sum in the field.
    pub open spec fn add(self, rhs: SecureValue) -> SecureValue {
        self.raw_add(rhs).reduce()
    }

    /// The difference in the field.
    pub open spec fn sub(self, rhs: SecureValue) -> SecureValue {
        self.raw_sub(rhs).reduce()
    }

    /// The product in the field.
    pub open spec fn mul(self, rhs: SecureValue) -> SecureValue {
        self.raw_mul(rhs).reduce()
    }

    /// `other` is the multiplicative inverse of `self`.
    pub open spec fn is_inverse_of(self, other: SecureValue) -> bool {
        self.mul(other) == SecureValue::one()
    }
}

/// The multiplicative inverse of a non-zero element.
pub uninterp spec fn secure_inverse(x: SecureValue) -> SecureValue;

/// The inverses of a column of non-zero elements, as one batch computes them.
pub uninterp spec fn batch_inverse_values(column: Seq<SecureValue>) -> Seq<SecureValue>;

/// The quotient of `numerator` by a non-zero `denominator`.
pub open spec fn quotient(numerator: SecureValue, denominator: SecureValue) -> SecureValue {
    numerator.mul(secure_inverse(denominator))
}

/// The element `e0 + e1 i + e2 u + e3 i u`, which joins the values of four
/// coordinate polynomials.
pub open spec fn from_partial_evals(
    e0: SecureValue,
    e1: SecureValue,
    e2: SecureValue,
    e3: SecureValue,
) -> SecureValue {
    e0.add(e1.mul(SecureValue { a: 0, b: 1, c: 0, d: 0 })).add(
        e2.mul(SecureValue { a: 0, b: 0, c: 1, d: 0 }),
    ).add(e3.mul(SecureValue { a: 0, b: 0, c: 0, d: 1 }))
}

/// The elements that a column of the field holds.
pub open spec fn secure_values(column: Seq<QM31>) -> Seq<SecureValue> {
    column.map_values(|x: QM31| x@)
}

/// An element of the extension field, held as four reduced coordinates.
#[derive(Clone, Copy, Debug, PartialEq, Eq, Structural)]
pub struct QM31 {
    a: u32,
    b: u32,
    c: u32,
    d: u32,
}

pub type SecureField = QM31;

impl View for QM31 {
    type V = SecureValue;

    closed spec fn view(&self) -> SecureValue {
        SecureValue { a: self.a as int, b: self.b as int, c: self.c as int, d: self.d as int }
    }
}

/// `QM31 + QM31` of stwo: the sum in the field.
#[verifier::external_body]
fn add_secure(x: QM31, y: QM31) -> (r: QM31)
    requires
        x@.reduced(),
        y@.reduced(),
    ensures
        r@ == x@.add(y@),
{
    let l = stwo::core::fields::qm31::QM31::from_u32_unchecked(x.a, x.b, x.c, x.d);
    let r = stwo::core::fields::qm31::QM31::from_u32_unchecked(y.a, y.b, y.c, y.d);
    let [a, b, c, d] = (l + r).to_m31_array();
    QM31 { a: a.0, b: b.0, c: c.0, d: d.0 }
}

/// `QM31 - QM31` of stwo: the difference in the field.
#[verifier::external_body]
fn sub_secure(x: QM31, y: QM31) -> (r: QM31)
    requires
        x@.reduced(),
        y@.reduced(),
    ensures
        r@ == x@.sub(y@),
{
    let l = stwo::core::fields::qm31::QM31::from_u32_unchecked(x.a, x.b, x.c, x.d);
    let r = stwo::core::fields::qm31::QM31::from_u32_unchecked(y.a, y.b, y.c, y.d);
    let [a, b, c, d] = (l - r).to_m31_array();
    QM31 { a: a.0, b: b.0, c: c.0, d: d.0 }
}

/// `QM31 * QM31` of stwo: the product in the field.
#[verifier::external_body]
fn mul_secure(x: QM31, y: QM31) -> (r: QM31)
    requires
        x@.reduced(),
        y@.reduced(),
    ensures
        r@ == x@.mul(y@),
{
    let l = stwo::core::fields::qm31::QM31::from_u32_unchecked(x.a, x.b, x.c, x.d);
    let r = stwo::core::fields::qm31::QM31::from_u32_unchecked(y.a, y.b, y.c, y.d);
    let [a, b, c, d] = (l * r).to_m31_array();
    QM31 { a: a.0, b: b.0, c: c.0, d: d.0 }
}

/// `FieldExpOps::inverse` of stwo on `QM31`, which panics on zero: the
/// element whose product with `x` is one.
#[verifier::external_body]
fn inverse_secure(x: QM31) -> (r: QM31)
    requires
        x@.reduced(),
        x@ != SecureValue::zero(),
    ensures
        r@ == secure_inverse(x@),
        r@.reduced(),
        x@.is_inverse_of(r@),
{
    let v = stwo::core::fields::qm31::QM31::from_u32_unchecked(x.a, x.b, x.c, x.d);
    let [a, b, c, d] = stwo::core::fields::FieldExpOps::inverse(&v).to_m31_array();
    QM31 { a: a.0, b: b.0, c: c.0, d: d.0 }
}

/// `FieldExpOps::batch_inverse` of stwo on `QM31`, which panics when an
/// element is zero: as many elements as it was given, each with reduced
/// coordinates, the product of each with the element in its place being one.
#[verifier::external_body]
fn batch_inverse_secure(column: &Vec<QM31>) -> (r: Vec<QM31>)
    requires
        forall|i: int| 0 <= i < column@.len() ==> (#[trigger] column@[i])@ != SecureValue::zero(),
    ensures
        secure_values(r@) == batch_inverse_values(secure_values(column@)),
        r@.len() == column@.len(),
        forall|i: int|
            0 <= i < column@.len() ==> (#[trigger] r@[i])@.reduced() && column@[i]@.is_inverse_of(
                r@[i]@,
            ),
{
    let elements: Vec<stwo::core::fields::qm31::QM31> = column
        .iter()
        .map(|x| stwo::core::fields::qm31::QM31::from_u32_unchecked(x.a, x.b, x.c, x.d))
        .collect();
    let inverses = <stwo::core::fields::qm31::QM31 as stwo::core::fields::FieldExpOps>::batch_inverse(
        &elements,
    );
    inverses.iter().map(|v| QM31 { a: v.0.0.0, b: v.0.1.0, c: v.1.0.0, d: v.1.1.0 }).collect()
}

impl QM31 {
    #[verifier::type_invariant]
    spec fn coordinates_reduced(self) -> bool {
        &&& self.a < P
        &&& self.b < P
        &&& self.c < P
        &&& self.d < P
    }

    /// The element with the given coordinates.
    pub fn from_m31(a: M31, b: M31, c: M31, d: M31) -> (r: QM31)
        ensures
            r@ == (SecureValue { a: a@, b: b@, c: c@, d: d@ }),
    {
        QM31 { a: a.value(), b: b.value(), c: c.value(), d: d.value() }
    }

    /// The element with the given coordinates, each taken to its residue.
    pub fn from_u32(a: u32, b: u32, c: u32, d: u32) -> (r: QM31)
        ensures
            r@ == (SecureValue { a: a as int, b: b as int, c: c as int, d: d as int }).reduce(),
    {
        QM31::from_m31(M31::from_u32(a), M31::from_u32(b), M31::from_u32(c), M31::from_u32(d))
    }

    /// The base-field element `x` in the extension.
    pub fn from_base(x: M31) -> (r: QM31)
        ensures
            r@ == SecureValue::from_base(x@),
    {
        QM31 { a: x.value(), b: 0, c: 0, d: 0 }
    }

    pub fn zero() -> (r: QM31)
        ensures
            r@ == SecureValue::zero(),
    {
        QM31 { a: 0, b: 0, c: 0, d: 0 }
    }

    pub fn one() -> (r: QM31)
        ensures
            r@ == SecureValue::one(),
    {
        QM31 { a: 1, b: 0, c: 0, d: 0 }
    }

    /// The four coordinates, in order.
    pub fn to_m31_array(&self) -> (r: [M31; 4])
        ensures
            r@[0]@ == self@.a,
            r@[1]@ == self@.b,
            r@[2]@ == self@.c,
            r@[3]@ == self@.d,
    {
        proof {
            use_type_invariant(self);
        }
        [
            M31::from_u32_unchecked(self.a),
            M31::from_u32_unchecked(self.b),
            M31::from_u32_unchecked(self.c),
            M31::from_u32_unchecked(self.d),
        ]
    }

    pub fn is_zero(&self) -> (r: bool)
        ensures
            r == (self@ == SecureValue::zero()),
    {
        self.a == 0 && self.b == 0 && self.c == 0 && self.d == 0
    }

    pub fn add(&self, rhs: &QM31) -> (r: QM31)
        ensures
            r@ == self@.add(rhs@),
    {
        proof {
            use_type_invariant(self);
            use_type_invariant(rhs);
        }
        add_secure(*self, *rhs)
    }

    pub fn sub(&self, rhs: &QM31) -> (r: QM31)
        ensures
            r@ == self@.sub(rhs@),
    {
        proof {
            use_type_invariant(self);
            use_type_invariant(rhs);
        }
        sub_secure(*self, *rhs)
    }

    pub fn mul(&self, rhs: &QM31) -> (r: QM31)
        ensures
            r@ == self@.mul(rhs@),
    {
        proof {
            use_type_invariant(self);
            use_type_invariant(rhs);
        }
        mul_secure(*self, *rhs)
    }

    /// The multiplicative inverse of a non-zero element.
    pub fn inverse(&self) -> (r: QM31)
        requires
            self@ != SecureValue::zero(),
        ensures
            r@ == secure_inverse(self@),
            r@.reduced(),
            self@.is_inverse_of(r@),
    {
        proof {
            use_type_invariant(self);
        }
        inverse_secure(*self)
    }

    /// The multiplicative inverse, where there is one.
    pub fn checked_inverse(&self) -> (r: Option<QM31>)
        ensures
            r is None <==> self@ == SecureValue::zero(),
            r matches Some(inverse) ==> inverse@ == secure_inverse(self@) && inverse@.reduced()
                && self@.is_inverse_of(inverse@),
    {
        if self.is_zero() {
            None
        } else {
            Some(self.inverse())
        }
    }

    /// The quotient of `self` by `denominator`, where the latter is not zero:
    /// the element whose product with `denominator` is `self`.
    pub fn checked_div(&self, denominator: &QM31) -> (r: Option<QM31>)
        ensures
            r is None <==> denominator@ == SecureValue::zero(),
            r matches Some(q) ==> q@ == quotient(self@, denominator@) && q@.mul(denominator@)
                == self@,
    {
        proof {
            use_type_invariant(self);
        }
        match denominator.checked_inverse() {
            Some(inverse) => {
                proof {
                    crate::algebra::lemma_quotient_times_denominator(
                        self@,
                        inverse@,
                        denominator@,
                    );
                }
                Some(self.mul(&inverse))
            },
            None => None,
        }
    }

    /// The inverses of non-zero elements, in their order, computed as one
    /// batch.
    pub fn batch_inverse(column: &Vec<QM31>) -> (r: Vec<QM31>)
        requires
            forall|i: int| 0 <= i < column@.len() ==> (#[trigger] column@[i])@ != SecureValue::zero(),
        ensures
            secure_values(r@) == batch_inverse_values(secure_values(column@)),
            r@.len() == column@.len(),
            forall|i: int|
                0 <= i < column@.len() ==> (#[trigger] r@[i])@.reduced()
                    && column@[i]@.is_inverse_of(r@[i]@),
    {
        batch_inverse_secure(column)
    }

    /// The inverses of the elements of a column, computed as one batch,
    /// where none of them is zero.
    pub fn checked_batch_inverse(column: &Vec<QM31>) -> (r: Option<Vec<QM31>>)
        ensures
            r is None <==> exists|i: int|
                0 <= i < column@.len() && (#[trigger] column@[i])@ == SecureValue::zero(),
            r matches Some(inverses) ==> {
                &&& secure_values(inverses@) == batch_inverse_values(secure_values(column@))
                &&& inverses@.len() == column@.len()
                &&& forall|i: int|
                    0 <= i < column@.len() ==> (#[trigger] inverses@[i])@.reduced()
                        && column@[i]@.is_inverse_of(inverses@[i]@)
            },
    {
        let mut i: usize = 0;
        while i < column.len()
            invariant
                0 <= i <= column@.len(),
                forall|k: int| 0 <= k < i ==> (#[trigger] column@[k])@ != SecureValue::zero(),
            decreases column@.len() - i,
        {
            if column[i].is_zero() {
                return None;
            }
            i = i + 1;
        }
        Some(QM31::batch_inverse(column))
    }

    /// The element `e0 + e1 i + e2 u + e3 i u`.
    pub fn from_partial_evals(evals: &[QM31; 4]) -> (r: QM31)
        ensures
            r@ == from_partial_evals(evals@[0]@, evals@[1]@, evals@[2]@, evals@[3]@),
    {
        let i: QM31 = QM31 { a: 0, b: 1, c: 0, d: 0 };
        let u: QM31 = QM31 { a: 0, b: 0, c: 1, d: 0 };
        let iu: QM31 = QM31 { a: 0, b: 0, c: 0, d: 1 };
        evals[0].add(&evals[1].mul(&i)).add(&evals[2].mul(&u)).add(&evals[3].mul(&iu))
    }
}

impl QM31 {
    /// The element whose coordinates are those of `v`, each reduced.
    pub closed spec fn of(v: SecureValue) -> QM31 {
        QM31 {
            a: (v.a % (P as int)) as u32,
            b: (v.b % (P as int)) as u32,
            c: (v.c % (P as int)) as u32,
            d: (v.d % (P as int)) as u32,
        }
    }

    /// `of` has the coordinates it is given, reduced.
    pub broadcast proof fn lemma_of(v: SecureValue)
        ensures
            (#[trigger] QM31::of(v))@ == v.reduce(),
    {
    }
}

impl FieldLike for QM31 {
    open spec fn spec_from_m31(x: int) -> QM31 {
        QM31::of(SecureValue::from_base(x))
    }

    open spec fn spec_add(self, rhs: QM31) -> QM31 {
        QM31::of(self@.add(rhs@))
    }

    open spec fn spec_sub(self, rhs: QM31) -> QM31 {
        QM31::of(self@.sub(rhs@))
    }

    open spec fn spec_mul(self, rhs: QM31) -> QM31 {
        QM31::of(self@.mul(rhs@))
    }

    open spec fn spec_neg(self) -> QM31 {
        QM31::of(SecureValue::zero().sub(self@))
    }

    fn duplicate(&self) -> (r: QM31) {
        *self
    }

    fn zero() -> (r: QM31) {
        QM31 { a: 0, b: 0, c: 0, d: 0 }
    }

    fn one() -> (r: QM31) {
        QM31 { a: 1, b: 0, c: 0, d: 0 }
    }

    fn from_m31(x: M31) -> (r: QM31) {
        QM31 { a: x.value(), b: 0, c: 0, d: 0 }
    }

    fn add(&self, rhs: &QM31) -> (r: QM31) {
        proof {
            use_type_invariant(self);
            use_type_invariant(rhs);
        }
        add_secure(*self, *rhs)
    }

    fn sub(&self, rhs: &QM31) -> (r: QM31) {
        proof {
            use_type_invariant(self);
            use_type_invariant(rhs);
        }
        sub_secure(*self, *rhs)
    }

    fn mul(&self, rhs: &QM31) -> (r: QM31) {
        proof {
            use_type_invariant(self);
            use_type_invariant(rhs);
        }
        mul_secure(*self, *rhs)
    }

    fn neg(&self) -> (r: QM31) {
        proof {
            use_type_invariant(self);
        }
        sub_secure(QM31 { a: 0, b: 0, c: 0, d: 0 }, *self)
    }
}

} // verus!
