//! Laws of the arithmetic of the extension field, as the LogUp columns need
//! them.

use vstd::arithmetic::div_mod::{
    lemma_mod_multiples_vanish, lemma_mul_mod_noop_right, lemma_small_mod,
};
use vstd::arithmetic::mul::lemma_mul_is_associative;
use vstd::prelude::*;

use crate::m31::P;
use crate::secure_field::SecureValue;

verus! {

/// The coordinates of `x`, each times `m`.
pub open spec fn scale(x: SecureValue, m: int) -> SecureValue {
    SecureValue { a: m * x.a, b: m * x.b, c: m * x.c, d: m * x.d }
}

/// `x` and `y` differ by the modulus times `q`, coordinate by coordinate.
pub open spec fn differ_by(x: SecureValue, y: SecureValue, q: SecureValue) -> bool {
    &&& x.a == y.a + P * q.a
    &&& x.b == y.b + P * q.b
    &&& x.c == y.c + P * q.c
    &&& x.d == y.d + P * q.d
}

/// The quotients of the coordinates by the modulus.
pub open spec fn quotients(x: SecureValue) -> SecureValue {
    SecureValue {
        a: x.a / (P as int),
        b: x.b / (P as int),
        c: x.c / (P as int),
        d: x.d / (P as int),
    }
}

proof fn lemma_shifted_product(x: int, y: int, q: int, z: int)
    requires
        x == y + P * q,
    ensures
        x * z == y * z + P * (q * z),
{
    assert((y + P * q) * z == y * z + P * (q * z)) by (nonlinear_arith);
}

/// The product is the same in either order.
pub proof fn lemma_mul_commutes(x: SecureValue, y: SecureValue)
    ensures
        x.raw_mul(y) == y.raw_mul(x),
        x.mul(y) == y.mul(x),
{
    assert(x.a * y.a == y.a * x.a) by (nonlinear_arith);
    assert(x.b * y.b == y.b * x.b) by (nonlinear_arith);
    assert(x.c * y.c == y.c * x.c) by (nonlinear_arith);
    assert(x.d * y.d == y.d * x.d) by (nonlinear_arith);
    assert(x.a * y.b == y.b * x.a) by (nonlinear_arith);
    assert(x.b * y.a == y.a * x.b) by (nonlinear_arith);
    assert(x.a * y.c == y.c * x.a) by (nonlinear_arith);
    assert(x.c * y.a == y.a * x.c) by (nonlinear_arith);
    assert(x.a * y.d == y.d * x.a) by (nonlinear_arith);
    assert(x.d * y.a == y.a * x.d) by (nonlinear_arith);
    assert(x.b * y.c == y.c * x.b) by (nonlinear_arith);
    assert(x.c * y.b == y.b * x.c) by (nonlinear_arith);
    assert(x.b * y.d == y.d * x.b) by (nonlinear_arith);
    assert(x.d * y.b == y.b * x.d) by (nonlinear_arith);
    assert(x.c * y.d == y.d * x.c) by (nonlinear_arith);
    assert(x.d * y.c == y.c * x.d) by (nonlinear_arith);
}

/// Coordinates that differ by multiples of the modulus give products that
/// do.
pub proof fn lemma_raw_mul_shift(x: SecureValue, y: SecureValue, q: SecureValue, z: SecureValue)
    requires
        differ_by(x, y, q),
    ensures
        differ_by(x.raw_mul(z), y.raw_mul(z), q.raw_mul(z)),
{
    lemma_shifted_product(x.a, y.a, q.a, z.a);
    lemma_shifted_product(x.a, y.a, q.a, z.b);
    lemma_shifted_product(x.a, y.a, q.a, z.c);
    lemma_shifted_product(x.a, y.a, q.a, z.d);
    lemma_shifted_product(x.b, y.b, q.b, z.a);
    lemma_shifted_product(x.b, y.b, q.b, z.b);
    lemma_shifted_product(x.b, y.b, q.b, z.c);
    lemma_shifted_product(x.b, y.b, q.b, z.d);
    lemma_shifted_product(x.c, y.c, q.c, z.a);
    lemma_shifted_product(x.c, y.c, q.c, z.b);
    lemma_shifted_product(x.c, y.c, q.c, z.c);
    lemma_shifted_product(x.c, y.c, q.c, z.d);
    lemma_shifted_product(x.d, y.d, q.d, z.a);
    lemma_shifted_product(x.d, y.d, q.d, z.b);
    lemma_shifted_product(x.d, y.d, q.d, z.c);
    lemma_shifted_product(x.d, y.d, q.d, z.d);
}

/// Values that differ by multiples of the modulus reduce to the same.
pub proof fn lemma_reduce_shift(x: SecureValue, y: SecureValue, q: SecureValue)
    requires
        differ_by(x, y, q),
    ensures
        x.reduce() == y.reduce(),
{
    lemma_mod_multiples_vanish(q.a, y.a, P as int);
    lemma_mod_multiples_vanish(q.b, y.b, P as int);
    lemma_mod_multiples_vanish(q.c, y.c, P as int);
    lemma_mod_multiples_vanish(q.d, y.d, P as int);
}

/// A value and its reduction differ by multiples of the modulus.
pub proof fn lemma_reduce_differs(x: SecureValue)
    ensures
        differ_by(x, x.reduce(), quotients(x)),
{
    vstd::arithmetic::div_mod::lemma_fundamental_div_mod(x.a, P as int);
    vstd::arithmetic::div_mod::lemma_fundamental_div_mod(x.b, P as int);
    vstd::arithmetic::div_mod::lemma_fundamental_div_mod(x.c, P as int);
    vstd::arithmetic::div_mod::lemma_fundamental_div_mod(x.d, P as int);
}

/// The product of a reduction is the product: reducing a factor first does
/// not change the product in the field.
pub proof fn lemma_mul_of_reduced(x: SecureValue, z: SecureValue)
    ensures
        x.reduce().mul(z) == x.mul(z),
{
    lemma_reduce_differs(x);
    lemma_raw_mul_shift(x, x.reduce(), quotients(x), z);
    lemma_reduce_shift(x.raw_mul(z), x.reduce().raw_mul(z), quotients(x).raw_mul(z));
}

/// A product with a base-field element is the coordinates times it.
pub proof fn lemma_mul_from_base(x: SecureValue, m: int)
    ensures
        x.raw_mul(SecureValue::from_base(m)) == scale(x, m),
        x.mul(SecureValue::from_base(m)) == scale(x, m).reduce(),
{
    assert(x.a * m == m * x.a) by (nonlinear_arith);
    assert(x.b * m == m * x.b) by (nonlinear_arith);
    assert(x.c * m == m * x.c) by (nonlinear_arith);
    assert(x.d * m == m * x.d) by (nonlinear_arith);
    assert(x.a * 0 == 0 && x.b * 0 == 0 && x.c * 0 == 0 && x.d * 0 == 0) by (nonlinear_arith);
}

proof fn lemma_scaled_product(m: int, x: int, y: int)
    ensures
        (m * x) * y == m * (x * y),
{
    lemma_mul_is_associative(m, x, y);
}

proof fn lemma_scaled_sum(m: int, t1: int, t2: int, t3: int, t4: int, t5: int, t6: int)
    ensures
        m * t1 - m * t2 + 2 * (m * t3 - m * t4) - (m * t5 + m * t6) == m * (t1 - t2 + 2 * (t3 - t4)
            - (t5 + t6)),
        m * t1 + m * t2 + (m * t3 - m * t4) + 2 * (m * t5 + m * t6) == m * (t1 + t2 + (t3 - t4) + 2
            * (t5 + t6)),
        m * t1 - m * t2 + m * t3 - m * t4 == m * (t1 - t2 + t3 - t4),
        m * t1 + m * t2 + m * t3 + m * t4 == m * (t1 + t2 + t3 + t4),
{
    assert(m * t1 - m * t2 + 2 * (m * t3 - m * t4) - (m * t5 + m * t6) == m * (t1 - t2 + 2 * (t3
        - t4) - (t5 + t6))) by (nonlinear_arith);
    assert(m * t1 + m * t2 + (m * t3 - m * t4) + 2 * (m * t5 + m * t6) == m * (t1 + t2 + (t3 - t4)
        + 2 * (t5 + t6))) by (nonlinear_arith);
    assert(m * t1 - m * t2 + m * t3 - m * t4 == m * (t1 - t2 + t3 - t4)) by (nonlinear_arith);
    assert(m * t1 + m * t2 + m * t3 + m * t4 == m * (t1 + t2 + t3 + t4)) by (nonlinear_arith);
}

/// Scaling a factor scales the product.
pub proof fn lemma_raw_mul_scale(x: SecureValue, m: int, y: SecureValue)
    ensures
        scale(x, m).raw_mul(y) == scale(x.raw_mul(y), m),
{
    lemma_scaled_product(m, x.a, y.a);
    lemma_scaled_product(m, x.a, y.b);
    lemma_scaled_product(m, x.a, y.c);
    lemma_scaled_product(m, x.a, y.d);
    lemma_scaled_product(m, x.b, y.a);
    lemma_scaled_product(m, x.b, y.b);
    lemma_scaled_product(m, x.b, y.c);
    lemma_scaled_product(m, x.b, y.d);
    lemma_scaled_product(m, x.c, y.a);
    lemma_scaled_product(m, x.c, y.b);
    lemma_scaled_product(m, x.c, y.c);
    lemma_scaled_product(m, x.c, y.d);
    lemma_scaled_product(m, x.d, y.a);
    lemma_scaled_product(m, x.d, y.b);
    lemma_scaled_product(m, x.d, y.c);
    lemma_scaled_product(m, x.d, y.d);
    lemma_scaled_sum(m, x.a * y.a, x.b * y.b, x.c * y.c, x.d * y.d, x.c * y.d, x.d * y.c);
    lemma_scaled_sum(m, x.a * y.b, x.b * y.a, x.c * y.c, x.d * y.d, x.c * y.d, x.d * y.c);
    lemma_scaled_sum(m, x.a * y.c, x.b * y.d, x.c * y.a, x.d * y.b, 0, 0);
    lemma_scaled_sum(m, x.a * y.d, x.b * y.c, x.c * y.b, x.d * y.a, 0, 0);
}

/// Scaling a reduction is, in the field, scaling the value.
pub proof fn lemma_scale_of_reduced(x: SecureValue, m: int)
    ensures
        scale(x.reduce(), m).reduce() == scale(x, m).reduce(),
{
    lemma_mul_mod_noop_right(m, x.a, P as int);
    lemma_mul_mod_noop_right(m, x.b, P as int);
    lemma_mul_mod_noop_right(m, x.c, P as int);
    lemma_mul_mod_noop_right(m, x.d, P as int);
}

/// A fraction times its denominator is its numerator: where `inverse` is the
/// inverse of `denominator`, the product of `inverse` and the base-field
/// element `m`, times `denominator`, is `m`.
pub proof fn lemma_fraction_times_denominator(
    inverse: SecureValue,
    denominator: SecureValue,
    m: int,
)
    requires
        denominator.is_inverse_of(inverse),
        0 <= m < P,
    ensures
        inverse.mul(SecureValue::from_base(m)).mul(denominator) == SecureValue::from_base(m),
{
    let scaled = scale(inverse, m);
    lemma_mul_from_base(inverse, m);
    lemma_mul_of_reduced(scaled, denominator);
    lemma_raw_mul_scale(inverse, m, denominator);
    let product = inverse.raw_mul(denominator);
    lemma_mul_commutes(inverse, denominator);
    assert(product.reduce() == SecureValue::one());
    lemma_scale_of_reduced(product, m);
    assert(m * 1 == m && m * 0 == 0) by (nonlinear_arith);
    lemma_small_mod(m as nat, P as nat);
}

proof fn lemma_expand_first(s: int, m: int, t1: int, t2: int, t3: int, t4: int, t5: int, t6: int)
    requires
        s == t1 - t2 + 2 * (t3 - t4) - (t5 + t6),
    ensures
        s * m == t1 * m - t2 * m + 2 * (t3 * m - t4 * m) - (t5 * m + t6 * m),
        m * s == m * t1 - m * t2 + 2 * (m * t3 - m * t4) - (m * t5 + m * t6),
{
    assert((t1 - t2 + 2 * (t3 - t4) - (t5 + t6)) * m == t1 * m - t2 * m + 2 * (t3 * m - t4 * m) - (
    t5 * m + t6 * m)) by (nonlinear_arith);
    assert(m * (t1 - t2 + 2 * (t3 - t4) - (t5 + t6)) == m * t1 - m * t2 + 2 * (m * t3 - m * t4) - (
    m * t5 + m * t6)) by (nonlinear_arith);
}

proof fn lemma_expand_second(s: int, m: int, t1: int, t2: int, t3: int, t4: int, t5: int, t6: int)
    requires
        s == t1 + t2 + (t3 - t4) + 2 * (t5 + t6),
    ensures
        s * m == t1 * m + t2 * m + (t3 * m - t4 * m) + 2 * (t5 * m + t6 * m),
        m * s == m * t1 + m * t2 + (m * t3 - m * t4) + 2 * (m * t5 + m * t6),
{
    assert((t1 + t2 + (t3 - t4) + 2 * (t5 + t6)) * m == t1 * m + t2 * m + (t3 * m - t4 * m) + 2 * (
    t5 * m + t6 * m)) by (nonlinear_arith);
    assert(m * (t1 + t2 + (t3 - t4) + 2 * (t5 + t6)) == m * t1 + m * t2 + (m * t3 - m * t4) + 2 * (
    m * t5 + m * t6)) by (nonlinear_arith);
}

proof fn lemma_expand_third(s: int, m: int, t1: int, t2: int, t3: int, t4: int)
    requires
        s == t1 - t2 + t3 - t4,
    ensures
        s * m == t1 * m - t2 * m + t3 * m - t4 * m,
        m * s == m * t1 - m * t2 + m * t3 - m * t4,
{
    assert((t1 - t2 + t3 - t4) * m == t1 * m - t2 * m + t3 * m - t4 * m) by (nonlinear_arith);
    assert(m * (t1 - t2 + t3 - t4) == m * t1 - m * t2 + m * t3 - m * t4) by (nonlinear_arith);
}

proof fn lemma_expand_fourth(s: int, m: int, t1: int, t2: int, t3: int, t4: int)
    requires
        s == t1 + t2 + t3 + t4,
    ensures
        s * m == t1 * m + t2 * m + t3 * m + t4 * m,
        m * s == m * t1 + m * t2 + m * t3 + m * t4,
{
    assert((t1 + t2 + t3 + t4) * m == t1 * m + t2 * m + t3 * m + t4 * m) by (nonlinear_arith);
    assert(m * (t1 + t2 + t3 + t4) == m * t1 + m * t2 + m * t3 + m * t4) by (nonlinear_arith);
}

/// The integer product is associative.
pub proof fn lemma_raw_mul_associates(x: SecureValue, y: SecureValue, z: SecureValue)
    ensures
        x.raw_mul(y).raw_mul(z) == x.raw_mul(y.raw_mul(z)),
{
    let xy = x.raw_mul(y);
    let yz = y.raw_mul(z);
    lemma_mul_is_associative(x.a, y.a, z.a);
    lemma_mul_is_associative(x.a, y.a, z.b);
    lemma_mul_is_associative(x.a, y.a, z.c);
    lemma_mul_is_associative(x.a, y.a, z.d);
    lemma_mul_is_associative(x.a, y.b, z.a);
    lemma_mul_is_associative(x.a, y.b, z.b);
    lemma_mul_is_associative(x.a, y.b, z.c);
    lemma_mul_is_associative(x.a, y.b, z.d);
    lemma_mul_is_associative(x.a, y.c, z.a);
    lemma_mul_is_associative(x.a, y.c, z.b);
    lemma_mul_is_associative(x.a, y.c, z.c);
    lemma_mul_is_associative(x.a, y.c, z.d);
    lemma_mul_is_associative(x.a, y.d, z.a);
    lemma_mul_is_associative(x.a, y.d, z.b);
    lemma_mul_is_associative(x.a, y.d, z.c);
    lemma_mul_is_associative(x.a, y.d, z.d);
    lemma_mul_is_associative(x.b, y.a, z.a);
    lemma_mul_is_associative(x.b, y.a, z.b);
    lemma_mul_is_associative(x.b, y.a, z.c);
    lemma_mul_is_associative(x.b, y.a, z.d);
    lemma_mul_is_associative(x.b, y.b, z.a);
    lemma_mul_is_associative(x.b, y.b, z.b);
    lemma_mul_is_associative(x.b, y.b, z.c);
    lemma_mul_is_associative(x.b, y.b, z.d);
    lemma_mul_is_associative(x.b, y.c, z.a);
    lemma_mul_is_associative(x.b, y.c, z.b);
    lemma_mul_is_associative(x.b, y.c, z.c);
    lemma_mul_is_associative(x.b, y.c, z.d);
    lemma_mul_is_associative(x.b, y.d, z.a);
    lemma_mul_is_associative(x.b, y.d, z.b);
    lemma_mul_is_associative(x.b, y.d, z.c);
    lemma_mul_is_associative(x.b, y.d, z.d);
    lemma_mul_is_associative(x.c, y.a, z.a);
    lemma_mul_is_associative(x.c, y.a, z.b);
    lemma_mul_is_associative(x.c, y.a, z.c);
    lemma_mul_is_associative(x.c, y.a, z.d);
    lemma_mul_is_associative(x.c, y.b, z.a);
    lemma_mul_is_associative(x.c, y.b, z.b);
    lemma_mul_is_associative(x.c, y.b, z.c);
    lemma_mul_is_associative(x.c, y.b, z.d);
    lemma_mul_is_associative(x.c, y.c, z.a);
    lemma_mul_is_associative(x.c, y.c, z.b);
    lemma_mul_is_associative(x.c, y.c, z.c);
    lemma_mul_is_associative(x.c, y.c, z.d);
    lemma_mul_is_associative(x.c, y.d, z.a);
    lemma_mul_is_associative(x.c, y.d, z.b);
    lemma_mul_is_associative(x.c, y.d, z.c);
    lemma_mul_is_associative(x.c, y.d, z.d);
    lemma_mul_is_associative(x.d, y.a, z.a);
    lemma_mul_is_associative(x.d, y.a, z.b);
    lemma_mul_is_associative(x.d, y.a, z.c);
    lemma_mul_is_associative(x.d, y.a, z.d);
    lemma_mul_is_associative(x.d, y.b, z.a);
    lemma_mul_is_associative(x.d, y.b, z.b);
    lemma_mul_is_associative(x.d, y.b, z.c);
    lemma_mul_is_associative(x.d, y.b, z.d);
    lemma_mul_is_associative(x.d, y.c, z.a);
    lemma_mul_is_associative(x.d, y.c, z.b);
    lemma_mul_is_associative(x.d, y.c, z.c);
    lemma_mul_is_associative(x.d, y.c, z.d);
    lemma_mul_is_associative(x.d, y.d, z.a);
    lemma_mul_is_associative(x.d, y.d, z.b);
    lemma_mul_is_associative(x.d, y.d, z.c);
    lemma_mul_is_associative(x.d, y.d, z.d);
    lemma_expand_first(xy.a, z.a, x.a * y.a, x.b * y.b, x.c * y.c, x.d * y.d, x.c * y.d, x.d * y.c);
    lemma_expand_first(yz.a, x.a, y.a * z.a, y.b * z.b, y.c * z.c, y.d * z.d, y.c * z.d, y.d * z.c);
    lemma_expand_first(xy.a, z.b, x.a * y.a, x.b * y.b, x.c * y.c, x.d * y.d, x.c * y.d, x.d * y.c);
    lemma_expand_first(yz.a, x.b, y.a * z.a, y.b * z.b, y.c * z.c, y.d * z.d, y.c * z.d, y.d * z.c);
    lemma_expand_first(xy.a, z.c, x.a * y.a, x.b * y.b, x.c * y.c, x.d * y.d, x.c * y.d, x.d * y.c);
    lemma_expand_first(yz.a, x.c, y.a * z.a, y.b * z.b, y.c * z.c, y.d * z.d, y.c * z.d, y.d * z.c);
    lemma_expand_first(xy.a, z.d, x.a * y.a, x.b * y.b, x.c * y.c, x.d * y.d, x.c * y.d, x.d * y.c);
    lemma_expand_first(yz.a, x.d, y.a * z.a, y.b * z.b, y.c * z.c, y.d * z.d, y.c * z.d, y.d * z.c);
    lemma_expand_second(xy.b, z.a, x.a * y.b, x.b * y.a, x.c * y.c, x.d * y.d, x.c * y.d, x.d * y.c);
    lemma_expand_second(yz.b, x.a, y.a * z.b, y.b * z.a, y.c * z.c, y.d * z.d, y.c * z.d, y.d * z.c);
    lemma_expand_second(xy.b, z.b, x.a * y.b, x.b * y.a, x.c * y.c, x.d * y.d, x.c * y.d, x.d * y.c);
    lemma_expand_second(yz.b, x.b, y.a * z.b, y.b * z.a, y.c * z.c, y.d * z.d, y.c * z.d, y.d * z.c);
    lemma_expand_second(xy.b, z.c, x.a * y.b, x.b * y.a, x.c * y.c, x.d * y.d, x.c * y.d, x.d * y.c);
    lemma_expand_second(yz.b, x.c, y.a * z.b, y.b * z.a, y.c * z.c, y.d * z.d, y.c * z.d, y.d * z.c);
    lemma_expand_second(xy.b, z.d, x.a * y.b, x.b * y.a, x.c * y.c, x.d * y.d, x.c * y.d, x.d * y.c);
    lemma_expand_second(yz.b, x.d, y.a * z.b, y.b * z.a, y.c * z.c, y.d * z.d, y.c * z.d, y.d * z.c);
    lemma_expand_third(xy.c, z.a, x.a * y.c, x.b * y.d, x.c * y.a, x.d * y.b);
    lemma_expand_third(yz.c, x.a, y.a * z.c, y.b * z.d, y.c * z.a, y.d * z.b);
    lemma_expand_third(xy.c, z.b, x.a * y.c, x.b * y.d, x.c * y.a, x.d * y.b);
    lemma_expand_third(yz.c, x.b, y.a * z.c, y.b * z.d, y.c * z.a, y.d * z.b);
    lemma_expand_third(xy.c, z.c, x.a * y.c, x.b * y.d, x.c * y.a, x.d * y.b);
    lemma_expand_third(yz.c, x.c, y.a * z.c, y.b * z.d, y.c * z.a, y.d * z.b);
    lemma_expand_third(xy.c, z.d, x.a * y.c, x.b * y.d, x.c * y.a, x.d * y.b);
    lemma_expand_third(yz.c, x.d, y.a * z.c, y.b * z.d, y.c * z.a, y.d * z.b);
    lemma_expand_fourth(xy.d, z.a, x.a * y.d, x.b * y.c, x.c * y.b, x.d * y.a);
    lemma_expand_fourth(yz.d, x.a, y.a * z.d, y.b * z.c, y.c * z.b, y.d * z.a);
    lemma_expand_fourth(xy.d, z.b, x.a * y.d, x.b * y.c, x.c * y.b, x.d * y.a);
    lemma_expand_fourth(yz.d, x.b, y.a * z.d, y.b * z.c, y.c * z.b, y.d * z.a);
    lemma_expand_fourth(xy.d, z.c, x.a * y.d, x.b * y.c, x.c * y.b, x.d * y.a);
    lemma_expand_fourth(yz.d, x.c, y.a * z.d, y.b * z.c, y.c * z.b, y.d * z.a);
    lemma_expand_fourth(xy.d, z.d, x.a * y.d, x.b * y.c, x.c * y.b, x.d * y.a);
    lemma_expand_fourth(yz.d, x.d, y.a * z.d, y.b * z.c, y.c * z.b, y.d * z.a);
}

/// The product in the field is associative.
pub proof fn lemma_mul_associates(x: SecureValue, y: SecureValue, z: SecureValue)
    ensures
        x.mul(y).mul(z) == x.mul(y.mul(z)),
{
    lemma_mul_of_reduced(x.raw_mul(y), z);
    lemma_raw_mul_associates(x, y, z);
    lemma_mul_commutes(x, y.mul(z));
    lemma_mul_of_reduced(y.raw_mul(z), x);
    lemma_mul_commutes(y.raw_mul(z), x);
}

/// The product with one is the element.
pub proof fn lemma_mul_one(x: SecureValue)
    requires
        x.reduced(),
    ensures
        x.mul(SecureValue::one()) == x,
        SecureValue::one().mul(x) == x,
{
    lemma_mul_from_base(x, 1);
    lemma_mul_commutes(x, SecureValue::one());
    assert(1 * x.a == x.a && 1 * x.b == x.b && 1 * x.c == x.c && 1 * x.d == x.d)
        by (nonlinear_arith);
    lemma_small_mod(x.a as nat, P as nat);
    lemma_small_mod(x.b as nat, P as nat);
    lemma_small_mod(x.c as nat, P as nat);
    lemma_small_mod(x.d as nat, P as nat);
}

/// An element has one inverse at most.
pub proof fn lemma_inverse_is_unique(x: SecureValue, first: SecureValue, second: SecureValue)
    requires
        first.reduced(),
        second.reduced(),
        x.is_inverse_of(first),
        x.is_inverse_of(second),
    ensures
        first == second,
{
    lemma_mul_one(first);
    lemma_mul_one(second);
    lemma_mul_associates(first, x, second);
    lemma_mul_commutes(first, x);
}

/// A quotient times its denominator is its numerator, where `inverse` is the
/// inverse of `denominator`.
pub proof fn lemma_quotient_times_denominator(
    numerator: SecureValue,
    inverse: SecureValue,
    denominator: SecureValue,
)
    requires
        numerator.reduced(),
        denominator.is_inverse_of(inverse),
    ensures
        numerator.mul(inverse).mul(denominator) == numerator,
{
    lemma_mul_associates(numerator, inverse, denominator);
    lemma_mul_commutes(inverse, denominator);
    lemma_mul_one(numerator);
}

/// Four base-field values joined as coordinates are the element with those
/// coordinates.
pub proof fn lemma_partial_evals_of_coordinates(x: SecureValue)
    requires
        x.reduced(),
    ensures
        crate::secure_field::from_partial_evals(
            SecureValue::from_base(x.a),
            SecureValue::from_base(x.b),
            SecureValue::from_base(x.c),
            SecureValue::from_base(x.d),
        ) == x,
{
    let p = P as int;
    assert(x.b * 0 == 0 && x.b * 1 == x.b && 0 * 0 == 0 && 0 * 1 == 0) by (nonlinear_arith);
    assert(x.c * 0 == 0 && x.c * 1 == x.c) by (nonlinear_arith);
    assert(x.d * 0 == 0 && x.d * 1 == x.d) by (nonlinear_arith);
    lemma_small_mod(x.a as nat, p as nat);
    lemma_small_mod(x.b as nat, p as nat);
    lemma_small_mod(x.c as nat, p as nat);
    lemma_small_mod(x.d as nat, p as nat);
    lemma_small_mod(0, p as nat);
    let i = SecureValue { a: 0, b: 1, c: 0, d: 0 };
    let u = SecureValue { a: 0, b: 0, c: 1, d: 0 };
    let iu = SecureValue { a: 0, b: 0, c: 0, d: 1 };
    assert(SecureValue::from_base(x.b).mul(i) == (SecureValue { a: 0, b: x.b, c: 0, d: 0 }));
    assert(SecureValue::from_base(x.c).mul(u) == (SecureValue { a: 0, b: 0, c: x.c, d: 0 }));
    assert(SecureValue::from_base(x.d).mul(iu) == (SecureValue { a: 0, b: 0, c: 0, d: x.d }));
}

/// An element less zero is the element, and an element less itself is zero.
pub proof fn lemma_sub_laws(x: SecureValue)
    requires
        x.reduced(),
    ensures
        x.sub(SecureValue::zero()) == x,
        x.sub(x) == SecureValue::zero(),
{
    let p = P as int;
    lemma_small_mod(x.a as nat, p as nat);
    lemma_small_mod(x.b as nat, p as nat);
    lemma_small_mod(x.c as nat, p as nat);
    lemma_small_mod(x.d as nat, p as nat);
    lemma_small_mod(0, p as nat);
}

/// A sum less one of its terms is the other.
pub proof fn lemma_add_then_sub(s: SecureValue, t: SecureValue)
    requires
        s.reduced(),
        t.reduced(),
    ensures
        s.add(t).sub(s) == t,
{
    lemma_sum_less_term(s.a, t.a);
    lemma_sum_less_term(s.b, t.b);
    lemma_sum_less_term(s.c, t.c);
    lemma_sum_less_term(s.d, t.d);
}

proof fn lemma_sum_less_term(s: int, t: int)
    requires
        0 <= s < P,
        0 <= t < P,
    ensures
        ((s + t) % (P as int) - s) % (P as int) == t,
{
    let p = P as int;
    if s + t < p {
        lemma_small_mod((s + t) as nat, p as nat);
        lemma_small_mod(t as nat, p as nat);
    } else {
        lemma_mod_multiples_vanish(-1, s + t, p);
        lemma_small_mod((s + t - p) as nat, p as nat);
        lemma_mod_multiples_vanish(-1, t, p);
        lemma_small_mod(t as nat, p as nat);
    }
}

} // verus!
