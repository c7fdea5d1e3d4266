use stwo_cairo::channel::{InteractionElement, InteractionElements};
use stwo_cairo::circle::{canonic_coset_first, point_vanishing, BasePoint, CirclePoint};
use stwo_cairo::components::range_check_unit::{RangeCheckUnitComponent, RC_Z};
use stwo_cairo::m31::M31;
use stwo_cairo::secure_field::QM31;

type StwoPoint<F> = stwo::core::circle::CirclePoint<F>;
type StwoQM31 = stwo::core::fields::qm31::QM31;
type CanonicCoset = stwo::core::poly::circle::CanonicCoset;

fn stwo_point_vanishing(
    vanish_point: StwoPoint<stwo::core::fields::m31::M31>,
    p: StwoPoint<StwoQM31>,
) -> StwoQM31 {
    stwo::core::constraints::point_vanishing(vanish_point, p)
}

fn from_stwo(x: StwoQM31) -> QM31 {
    let c = x.to_m31_array();
    QM31::from_u32(c[0].0, c[1].0, c[2].0, c[3].0)
}

fn some_point() -> StwoPoint<StwoQM31> {
    StwoPoint::<StwoQM31>::get_point(1234567)
}

#[test]
fn canonic_coset_first_point_is_that_of_stwo() {
    for log_size in 1..=30u32 {
        let expected = CanonicCoset::new(log_size).at(0);
        let point = canonic_coset_first(log_size).unwrap();
        assert_eq!(point.x.value(), expected.x.0);
        assert_eq!(point.y.value(), expected.y.0);
    }
}

#[test]
fn canonic_coset_needs_a_size_in_range() {
    assert!(canonic_coset_first(0).is_none());
    assert!(canonic_coset_first(31).is_none());
    assert!(canonic_coset_first(u32::MAX).is_none());
}

#[test]
fn point_vanishing_agrees_with_stwo() {
    let start = CanonicCoset::new(5).at(0);
    let p = some_point();
    let expected = stwo_point_vanishing(start, p);
    let vanish_point = BasePoint {
        x: M31::from_u32_unchecked(start.x.0),
        y: M31::from_u32_unchecked(start.y.0),
    };
    let point = CirclePoint { x: from_stwo(p.x), y: from_stwo(p.y) };
    assert_eq!(point_vanishing(&vanish_point, &point), Some(from_stwo(expected)));
}

#[test]
fn point_vanishing_has_a_pole_at_the_antipode() {
    let start = CanonicCoset::new(3).at(0);
    let vanish_point = BasePoint {
        x: M31::from_u32_unchecked(start.x.0),
        y: M31::from_u32_unchecked(start.y.0),
    };
    let antipode = CirclePoint {
        x: QM31::from_base(vanish_point.x.neg()),
        y: QM31::from_base(vanish_point.y.neg()),
    };
    assert_eq!(point_vanishing(&vanish_point, &antipode), None);
    let itself = CirclePoint {
        x: QM31::from_base(vanish_point.x),
        y: QM31::from_base(vanish_point.y),
    };
    assert_eq!(point_vanishing(&vanish_point, &itself), Some(QM31::zero()));
}

fn elements_with(z: QM31) -> InteractionElements {
    InteractionElements { elements: vec![InteractionElement { name: RC_Z.to_string(), value: z }] }
}

fn mask_of(value: u32, multiplicity: u32, sum: QM31) -> Vec<Vec<Vec<QM31>>> {
    let base = |v: u32| QM31::from_base(M31::from_u32_unchecked(v));
    let c = sum.to_m31_array();
    vec![
        vec![vec![base(value)], vec![base(multiplicity)]],
        vec![
            vec![QM31::from_base(c[0])],
            vec![QM31::from_base(c[1])],
            vec![QM31::from_base(c[2])],
            vec![QM31::from_base(c[3])],
        ],
    ]
}

#[test]
fn boundary_quotient_is_numerator_over_vanishing() {
    let component = RangeCheckUnitComponent { log_n_instances: 3 };
    let z = QM31::from_u32(1, 2, 3, 117);
    let sum = QM31::from_u32(10, 20, 30, 40);
    let mask = mask_of(5, 9, sum);
    let p = some_point();
    let point = CirclePoint { x: from_stwo(p.x), y: from_stwo(p.y) };
    let numerator = sum
        .mul(&z.sub(&QM31::from_base(M31::from_u32_unchecked(5))))
        .sub(&QM31::from_base(M31::from_u32_unchecked(9)));
    let vanishing = from_stwo(stwo_point_vanishing(CanonicCoset::new(3).at(0), p));
    let expected = numerator.checked_div(&vanishing).unwrap();
    assert_eq!(component.evaluate_constraint_quotients_at_point(&point, &mask, &elements_with(z)), Some(expected));
    let start = canonic_coset_first(3).unwrap();
    assert_eq!(
        component.evaluate_lookup_boundary_constraints_at_point(
            &point,
            &mask,
            &elements_with(z),
            &start
        ),
        Some(expected)
    );
}

#[test]
fn boundary_quotient_vanishes_on_a_true_first_row() {
    let component = RangeCheckUnitComponent { log_n_instances: 4 };
    let z = QM31::from_u32(7, 0, 1, 2);
    let value = QM31::from_base(M31::from_u32_unchecked(3));
    let multiplicity = QM31::from_base(M31::from_u32_unchecked(6));
    let sum = multiplicity.checked_div(&z.sub(&value)).unwrap();
    let mask = mask_of(3, 6, sum);
    let p = some_point();
    let point = CirclePoint { x: from_stwo(p.x), y: from_stwo(p.y) };
    assert_eq!(
        component.evaluate_constraint_quotients_at_point(&point, &mask, &elements_with(z)),
        Some(QM31::zero())
    );
}

#[test]
fn boundary_quotient_needs_a_canonic_coset_and_no_pole() {
    let z = QM31::from_u32(1, 2, 3, 117);
    let mask = mask_of(5, 9, QM31::one());
    let p = some_point();
    let point = CirclePoint { x: from_stwo(p.x), y: from_stwo(p.y) };
    let no_coset = RangeCheckUnitComponent { log_n_instances: 0 };
    assert_eq!(no_coset.evaluate_constraint_quotients_at_point(&point, &mask, &elements_with(z)), None);
    let too_large = RangeCheckUnitComponent { log_n_instances: 31 };
    assert_eq!(too_large.evaluate_constraint_quotients_at_point(&point, &mask, &elements_with(z)), None);
    let component = RangeCheckUnitComponent { log_n_instances: 3 };
    let start = canonic_coset_first(3).unwrap();
    let first = CirclePoint { x: QM31::from_base(start.x), y: QM31::from_base(start.y) };
    assert_eq!(component.evaluate_constraint_quotients_at_point(&first, &mask, &elements_with(z)), None);
    let antipode =
        CirclePoint { x: QM31::from_base(start.x.neg()), y: QM31::from_base(start.y.neg()) };
    assert_eq!(component.evaluate_constraint_quotients_at_point(&antipode, &mask, &elements_with(z)), None);
}

#[test]
fn mask_points_opens_at_the_point() {
    let component = RangeCheckUnitComponent { log_n_instances: 3 };
    let point = CirclePoint { x: QM31::from_u32(1, 2, 3, 4), y: QM31::from_u32(5, 6, 7, 8) };
    let points = component.mask_points(point);
    assert_eq!(points.len(), 1);
    assert_eq!(points[0].len(), 1);
    assert_eq!(points[0][0].len(), 1);
    assert_eq!(points[0][0][0].x, point.x);
    assert_eq!(points[0][0][0].y, point.y);
}

#[test]
fn quotient_times_denominator_is_the_numerator() {
    let numerator = QM31::from_u32(3, 1, 4, 1);
    let denominator = QM31::from_u32(5, 9, 2, 6);
    let q = numerator.checked_div(&denominator).unwrap();
    assert_eq!(q.mul(&denominator), numerator);
}
