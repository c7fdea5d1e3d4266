use stwo_cairo::field_like::FieldLike;
use stwo_cairo::log2::{ceil_log2, floor_log2};
use stwo_cairo::m31::{M31, P};
use stwo_cairo::secure_field::{QM31, SECURE_EXTENSION_DEGREE};

type StwoQM31 = stwo::core::fields::qm31::QM31;

fn stwo_inverse(x: StwoQM31) -> StwoQM31 {
    stwo::core::fields::FieldExpOps::inverse(&x)
}

fn qm(a: u32, b: u32, c: u32, d: u32) -> QM31 {
    QM31::from_u32(a, b, c, d)
}

fn coordinates(x: &QM31) -> [u32; 4] {
    let c = x.to_m31_array();
    [c[0].value(), c[1].value(), c[2].value(), c[3].value()]
}

fn stwo_coordinates(x: StwoQM31) -> [u32; 4] {
    let c = x.to_m31_array();
    [c[0].0, c[1].0, c[2].0, c[3].0]
}

#[test]
fn base_field_order() {
    assert_eq!(P, 2147483647);
    assert_eq!(SECURE_EXTENSION_DEGREE, 4);
}

#[test]
fn from_u32_reduces() {
    assert_eq!(M31::from_u32(0).value(), 0);
    assert_eq!(M31::from_u32(P - 1).value(), P - 1);
    assert_eq!(M31::from_u32(P).value(), 0);
    assert_eq!(M31::from_u32(P + 5).value(), 5);
    assert_eq!(M31::from_u32(u32::MAX).value(), 1);
}

#[test]
fn base_field_arithmetic() {
    let x = M31::from_u32_unchecked(P - 1);
    let y = M31::from_u32_unchecked(5);
    assert_eq!(x.add(&y).value(), 4);
    assert_eq!(y.sub(&x).value(), 6);
    assert_eq!(x.sub(&y).value(), P - 6);
    assert_eq!(x.mul(&y).value(), P - 5);
    assert_eq!(y.neg().value(), P - 5);
    assert_eq!(M31::zero().neg().value(), 0);
    assert_eq!(M31::one().value(), 1);
    let big = M31::from_u32_unchecked(1 << 30);
    assert_eq!(big.mul(&big).value(), 1 << 29);
}

#[test]
fn base_field_agrees_with_stwo() {
    let samples = [0u32, 1, 2, 511, 512, 4194304, 1 << 30, P - 2, P - 1];
    for &a in &samples {
        for &b in &samples {
            let x = M31::from_u32_unchecked(a);
            let y = M31::from_u32_unchecked(b);
            assert_eq!(x.add(&y).value(), (stwo::core::fields::m31::M31(a) + stwo::core::fields::m31::M31(b)).0);
            assert_eq!(x.sub(&y).value(), (stwo::core::fields::m31::M31(a) - stwo::core::fields::m31::M31(b)).0);
            assert_eq!(x.mul(&y).value(), (stwo::core::fields::m31::M31(a) * stwo::core::fields::m31::M31(b)).0);
            assert_eq!(x.add(&y).value() as u64, (a as u64 + b as u64) % P as u64);
            assert_eq!(x.mul(&y).value() as u64, (a as u64 * b as u64) % P as u64);
        }
    }
}

#[test]
fn carry_scale_inverts_the_limb_weight() {
    let scale = M31::from_u32_unchecked(4194304);
    let weight = M31::from_u32_unchecked(512);
    assert_eq!(scale.mul(&weight).value(), 1);
}

#[test]
fn secure_field_constants() {
    assert_eq!(coordinates(&QM31::zero()), [0, 0, 0, 0]);
    assert_eq!(coordinates(&QM31::one()), [1, 0, 0, 0]);
    assert_eq!(coordinates(&QM31::from_base(M31::from_u32_unchecked(7))), [7, 0, 0, 0]);
    assert_eq!(coordinates(&qm(P, P + 1, 2, 3)), [0, 1, 2, 3]);
    assert!(QM31::zero().is_zero());
    assert!(!QM31::one().is_zero());
}

#[test]
fn secure_field_units() {
    let i = qm(0, 1, 0, 0);
    let u = qm(0, 0, 1, 0);
    assert_eq!(coordinates(&i.mul(&i)), [P - 1, 0, 0, 0]);
    assert_eq!(coordinates(&u.mul(&u)), [2, 1, 0, 0]);
    assert_eq!(coordinates(&i.mul(&u)), [0, 0, 0, 1]);
}

#[test]
fn secure_field_arithmetic() {
    let x = qm(1, 2, 3, 4);
    let y = qm(4, 5, 6, 7);
    assert_eq!(coordinates(&x.add(&y)), [5, 7, 9, 11]);
    assert_eq!(coordinates(&x.sub(&y)), [P - 3, P - 3, P - 3, P - 3]);
    assert_eq!(coordinates(&x.mul(&y)), [P - 71, 93, P - 16, 50]);
}

#[test]
fn secure_field_agrees_with_stwo() {
    let samples = [[1u32, 2, 3, 4], [P - 1, 0, 5, 117], [0, 0, 0, 1], [4194304, 512, P - 2, 9]];
    for a in &samples {
        for b in &samples {
            let x = qm(a[0], a[1], a[2], a[3]);
            let y = qm(b[0], b[1], b[2], b[3]);
            let sx = StwoQM31::from_u32_unchecked(a[0], a[1], a[2], a[3]);
            let sy = StwoQM31::from_u32_unchecked(b[0], b[1], b[2], b[3]);
            assert_eq!(coordinates(&x.add(&y)), stwo_coordinates(sx + sy));
            assert_eq!(coordinates(&x.sub(&y)), stwo_coordinates(sx - sy));
            assert_eq!(coordinates(&x.mul(&y)), stwo_coordinates(sx * sy));
            assert_eq!(coordinates(&x.inverse()), stwo_coordinates(stwo_inverse(sx)));
        }
    }
}

#[test]
fn inverse_times_element_is_one() {
    let x = qm(1, 2, 3, 117);
    let inverse = x.inverse();
    assert_ne!(inverse, x);
    assert_eq!(x.mul(&inverse), QM31::one());
    assert_eq!(x.checked_inverse(), Some(inverse));
    assert_eq!(QM31::zero().checked_inverse(), None);
}

#[test]
fn checked_div_divides() {
    let x = qm(9, 8, 7, 6);
    let y = qm(1, 0, 2, 0);
    let q = x.checked_div(&y).unwrap();
    assert_eq!(q.mul(&y), x);
    assert_eq!(x.checked_div(&QM31::zero()), None);
}

#[test]
fn batch_inverse_inverts_each() {
    let column: Vec<QM31> = (1..=9).map(|k| qm(k, 2 * k, 0, k + 3)).collect();
    let inverses = QM31::batch_inverse(&column);
    assert_eq!(inverses.len(), 9);
    for (x, inverse) in column.iter().zip(inverses.iter()) {
        assert_eq!(x.mul(inverse), QM31::one());
        assert_eq!(*inverse, x.inverse());
    }
    assert_eq!(QM31::batch_inverse(&Vec::new()), Vec::new());
}

#[test]
fn checked_batch_inverse_rejects_zero() {
    let column = vec![qm(1, 1, 1, 1), QM31::zero(), qm(2, 0, 0, 0)];
    assert_eq!(QM31::checked_batch_inverse(&column), None);
    let column = vec![qm(1, 1, 1, 1), qm(2, 0, 0, 0)];
    assert_eq!(QM31::checked_batch_inverse(&column), Some(QM31::batch_inverse(&column)));
}

#[test]
fn from_partial_evals_joins_coordinates() {
    let m = |v: u32| QM31::from_base(M31::from_u32_unchecked(v));
    let joined = QM31::from_partial_evals(&[m(5), m(6), m(7), m(8)]);
    assert_eq!(coordinates(&joined), [5, 6, 7, 8]);
    let evals = [qm(1, 2, 3, 4), qm(5, 6, 7, 8), qm(9, 10, 11, 12), qm(13, 14, 15, 16)];
    let s = |q: [u32; 4]| StwoQM31::from_u32_unchecked(q[0], q[1], q[2], q[3]);
    let expected = StwoQM31::from_partial_evals([
        s([1, 2, 3, 4]),
        s([5, 6, 7, 8]),
        s([9, 10, 11, 12]),
        s([13, 14, 15, 16]),
    ]);
    assert_eq!(coordinates(&QM31::from_partial_evals(&evals)), stwo_coordinates(expected));
}

#[test]
fn field_like_on_both_fields() {
    fn double_plus_one<F: FieldLike>(x: F) -> F {
        x.add(&x).add(&F::one())
    }
    assert_eq!(double_plus_one(M31::from_u32_unchecked(20)).value(), 41);
    assert_eq!(coordinates(&double_plus_one(qm(1, 2, 3, 4))), [3, 4, 6, 8]);
    assert_eq!(<M31 as FieldLike>::zero().value(), 0);
    assert_eq!(<QM31 as FieldLike>::from_m31(M31::from_u32_unchecked(9)), qm(9, 0, 0, 0));
    assert_eq!(FieldLike::neg(&qm(1, 0, 2, 0)), qm(P - 1, 0, P - 2, 0));
    assert_eq!(FieldLike::neg(&M31::from_u32_unchecked(1)).value(), P - 1);
    assert_eq!(FieldLike::mul(&M31::from_u32_unchecked(3), &M31::from_u32_unchecked(5)).value(), 15);
    assert_eq!(FieldLike::sub(&qm(1, 1, 1, 1), &qm(1, 0, 0, 2)), qm(0, 1, 1, P - 1));
}

#[test]
fn logarithms() {
    assert_eq!(floor_log2(1), 0);
    assert_eq!(floor_log2(2), 1);
    assert_eq!(floor_log2(3), 1);
    assert_eq!(floor_log2(1024), 10);
    assert_eq!(floor_log2(1025), 10);
    assert_eq!(floor_log2(usize::MAX), usize::BITS - 1);
    assert_eq!(ceil_log2(0), 0);
    assert_eq!(ceil_log2(1), 0);
    assert_eq!(ceil_log2(2), 1);
    assert_eq!(ceil_log2(3), 2);
    assert_eq!(ceil_log2(1024), 10);
    assert_eq!(ceil_log2(1025), 11);
    assert_eq!(ceil_log2(usize::MAX), usize::BITS);
}
