//! Points of the circle group, and the vanishing polynomial of a point.

use vstd::prelude::*;

use crate::m31::{neg_mod, M31};
use crate::secure_field::{quotient, SecureValue, QM31};

verus! {

/// A point with coordinates in the base field.
#[derive(Clone, Copy, Debug)]
pub struct BasePoint {
    pub x: M31,
    pub y: M31,
}

/// A point with coordinates in the extension field.
#[derive(Clone, Copy, Debug)]
pub struct CirclePoint {
    pub x: QM31,
    pub y: QM31,
}

/// The first point of the canonic coset of `2^log_size` points.
pub uninterp spec fn canonic_coset_start(log_size: int) -> (int, int);

/// `CanonicCoset::new(log_size).at(0)` of stwo, which panics unless
/// `log_size` is positive and the coset fits the circle of `2^31` points: the
/// coset's first point.
#[verifier::external_body]
fn canonic_coset_first_point(log_size: u32) -> (r: BasePoint)
    requires
        1 <= log_size <= 30,
    ensures
        (r.x@, r.y@) == canonic_coset_start(log_size as int),
{
    let point = stwo::core::poly::circle::CanonicCoset::new(log_size).at(0);
    BasePoint { x: M31::from_u32_unchecked(point.x.0), y: M31::from_u32_unchecked(point.y.0) }
}

/// The x coordinate of `p - v` in the circle group.
pub open spec fn difference_x(px: SecureValue, py: SecureValue, vx: int, vy: int) -> SecureValue {
    px.mul(SecureValue::from_base(vx)).sub(py.mul(SecureValue::from_base(neg_mod(vy))))
}

/// The y coordinate of `p - v` in the circle group.
pub open spec fn difference_y(px: SecureValue, py: SecureValue, vx: int, vy: int) -> SecureValue {
    px.mul(SecureValue::from_base(neg_mod(vy))).add(py.mul(SecureValue::from_base(vx)))
}

/// The denominator of the vanishing polynomial of `v` at `p`: one plus the x
/// coordinate of `p - v`. It is zero where `p` is the antipode of `v`.
pub open spec fn vanishing_denominator(px: SecureValue, py: SecureValue, vx: int, vy: int) -> SecureValue {
    SecureValue::one().add(difference_x(px, py, vx, vy))
}

/// The vanishing polynomial of `v` at `p`, away from its pole.
pub open spec fn point_vanishing_value(px: SecureValue, py: SecureValue, vx: int, vy: int) -> SecureValue {
    quotient(difference_y(px, py, vx, vy), vanishing_denominator(px, py, vx, vy))
}

/// The canonic coset's first point, for the log sizes that have one.
pub fn canonic_coset_first(log_size: u32) -> (r: Option<BasePoint>)
    ensures
        r is Some <==> 1 <= log_size <= 30,
        r matches Some(point) ==> (point.x@, point.y@) == canonic_coset_start(log_size as int),
{
    if 1 <= log_size && log_size <= 30 {
        Some(canonic_coset_first_point(log_size))
    } else {
        None
    }
}

impl CirclePoint {
    /// `self - v` in the circle group.
    pub fn sub_base(&self, v: &BasePoint) -> (r: CirclePoint)
        ensures
            r.x@ == difference_x(self.x@, self.y@, v.x@, v.y@),
            r.y@ == difference_y(self.x@, self.y@, v.x@, v.y@),
    {
        let vx: QM31 = QM31::from_base(v.x);
        let minus_vy: QM31 = QM31::from_base(v.y.neg());
        CirclePoint {
            x: self.x.mul(&vx).sub(&self.y.mul(&minus_vy)),
            y: self.x.mul(&minus_vy).add(&self.y.mul(&vx)),
        }
    }
}

/// The vanishing polynomial of `vanish_point` at `p`, which has a pole at the
/// antipode of `vanish_point`.
pub fn point_vanishing(vanish_point: &BasePoint, p: &CirclePoint) -> (r: Option<QM31>)
    ensures
        r is None <==> vanishing_denominator(p.x@, p.y@, vanish_point.x@, vanish_point.y@)
            == SecureValue::zero(),
        r matches Some(q) ==> q@ == point_vanishing_value(
            p.x@,
            p.y@,
            vanish_point.x@,
            vanish_point.y@,
        ),
{
    let h: CirclePoint = p.sub_base(vanish_point);
    let denominator: QM31 = QM31::one().add(&h.x);
    h.y.checked_div(&denominator)
}

} // verus!
