//! The LogUp argument on one table: the sum of the table's fractions, each
//! weighted by how often its row is looked up, is the sum of the fractions of
//! the lookups.

use vstd::arithmetic::div_mod::{
    lemma_add_mod_noop, lemma_add_mod_noop_right, lemma_mul_mod_noop_left, lemma_small_mod,
};
use vstd::prelude::*;

use crate::algebra::{lemma_mul_from_base, scale};
use crate::components::range_check_unit::{logup_sum, occurrences};
use crate::m31::{M31, P};
use crate::secure_field::SecureValue;

verus! {

/// The sum of the fractions of the first `k` lookups: for each looked-up
/// value, the fraction of its row of the table.
pub open spec fn lookup_sum(fractions: Seq<SecureValue>, inputs: Seq<M31>, k: nat) -> SecureValue
    decreases k,
{
    if k == 0 {
        SecureValue::zero()
    } else {
        lookup_sum(fractions, inputs, (k - 1) as nat).add(fractions[inputs[k - 1]@])
    }
}

/// The multiplicities of a table of `n` rows that counts the given lookups,
/// as residues of the base field.
pub open spec fn counted(inputs: Seq<M31>, n: nat) -> Seq<int> {
    Seq::new(n, |v: int| occurrences(inputs, v) as int % (P as int))
}

proof fn lemma_sum_of_residues(a: int, b: int, c: int)
    ensures
        ((a + b) % (P as int) + c) % (P as int) == (a + b + c) % (P as int),
        (a + (b + c) % (P as int)) % (P as int) == (a + b + c) % (P as int),
        ((a + c) % (P as int) + b) % (P as int) == (a + b + c) % (P as int),
{
    let p = P as int;
    lemma_add_mod_noop_right(c, a + b, p);
    lemma_add_mod_noop_right(a, b + c, p);
    lemma_add_mod_noop_right(b, a + c, p);
}

/// The sum in the field is associative and commutative.
pub proof fn lemma_add_laws(x: SecureValue, y: SecureValue, z: SecureValue)
    ensures
        x.add(y) == y.add(x),
        x.add(y).add(z) == x.add(y.add(z)),
        x.add(y).add(z) == x.add(z).add(y),
{
    lemma_sum_of_residues(x.a, y.a, z.a);
    lemma_sum_of_residues(x.b, y.b, z.b);
    lemma_sum_of_residues(x.c, y.c, z.c);
    lemma_sum_of_residues(x.d, y.d, z.d);
}

proof fn lemma_next_multiple(m: int, a: int)
    requires
        0 <= a < P,
    ensures
        (((m + 1) % (P as int)) * a) % (P as int) == (((m % (P as int)) * a) % (P as int) + a) % (
        P as int),
{
    let p = P as int;
    lemma_mul_mod_noop_left(m + 1, a, p);
    lemma_mul_mod_noop_left(m, a, p);
    assert((m + 1) * a == m * a + a) by (nonlinear_arith);
    lemma_add_mod_noop(m * a, a, p);
    lemma_add_mod_noop((m * a) % p, a, p);
    vstd::arithmetic::div_mod::lemma_mod_twice(m * a, p);
}

/// A fraction counted once more is the fraction counted and the fraction.
pub proof fn lemma_counted_once_more(fraction: SecureValue, m: int)
    requires
        fraction.reduced(),
    ensures
        fraction.mul(SecureValue::from_base((m + 1) % (P as int))) == fraction.mul(
            SecureValue::from_base(m % (P as int)),
        ).add(fraction),
{
    let p = P as int;
    lemma_mul_from_base(fraction, (m + 1) % p);
    lemma_mul_from_base(fraction, m % p);
    lemma_next_multiple(m, fraction.a);
    lemma_next_multiple(m, fraction.b);
    lemma_next_multiple(m, fraction.c);
    lemma_next_multiple(m, fraction.d);
    assert(((m + 1) % p) * fraction.a == fraction.a * ((m + 1) % p)) by (nonlinear_arith);
}

/// The sum of a table's fractions depends on the multiplicities of its rows
/// alone.
pub proof fn lemma_logup_sum_of_same_rows(
    fractions: Seq<SecureValue>,
    first: Seq<int>,
    second: Seq<int>,
    n: nat,
)
    requires
        forall|i: int| 0 <= i < n ==> first[i] == second[i],
    ensures
        logup_sum(fractions, first, n) == logup_sum(fractions, second, n),
    decreases n,
{
    if n > 0 {
        lemma_logup_sum_of_same_rows(fractions, first, second, (n - 1) as nat);
    }
}

/// A row looked up once more adds its fraction to the sum of the table.
pub proof fn lemma_one_more_lookup(
    fractions: Seq<SecureValue>,
    before: Seq<int>,
    after: Seq<int>,
    counts: Seq<int>,
    x: int,
    n: nat,
)
    requires
        0 <= x < n,
        fractions[x].reduced(),
        forall|i: int| 0 <= i < n ==> #[trigger] before[i] == counts[i] % (P as int),
        forall|i: int|
            0 <= i < n ==> #[trigger] after[i] == (counts[i] + if i == x {
                1int
            } else {
                0
            }) % (P as int),
    ensures
        logup_sum(fractions, after, n) == logup_sum(fractions, before, n).add(fractions[x]),
    decreases n,
{
    let last = n - 1;
    let below_before = logup_sum(fractions, before, last as nat);
    let below_after = logup_sum(fractions, after, last as nat);
    let term_before = fractions[last].mul(SecureValue::from_base(before[last]));
    let term_after = fractions[last].mul(SecureValue::from_base(after[last]));
    if x == last {
        lemma_logup_sum_of_same_rows(fractions, before, after, last as nat);
        lemma_counted_once_more(fractions[x], counts[x]);
        lemma_add_laws(below_before, term_before, fractions[x]);
    } else {
        lemma_one_more_lookup(fractions, before, after, counts, x, last as nat);
        lemma_add_laws(below_before, fractions[x], term_before);
    }
}

/// The LogUp sum of a table that counts its lookups is the sum of the
/// fractions of the lookups: the looked-up values, with their number, are
/// rows of the table.
pub proof fn lemma_table_sum_is_lookup_sum(fractions: Seq<SecureValue>, inputs: Seq<M31>, n: nat)
    requires
        fractions.len() >= n,
        forall|v: int| 0 <= v < n ==> (#[trigger] fractions[v]).reduced(),
        forall|j: int| 0 <= j < inputs.len() ==> 0 <= (#[trigger] inputs[j])@ < n,
    ensures
        logup_sum(fractions, counted(inputs, n), n) == lookup_sum(
            fractions,
            inputs,
            inputs.len(),
        ),
    decreases inputs.len(),
{
    if inputs.len() == 0 {
        lemma_sum_of_nothing(fractions, counted(inputs, n), n);
    } else {
        let front = inputs.drop_last();
        let x = inputs.last()@;
        lemma_table_sum_is_lookup_sum(fractions, front, n);
        let counts = Seq::new(n, |v: int| occurrences(front, v) as int);
        lemma_one_more_lookup(fractions, counted(front, n), counted(inputs, n), counts, x, n);
        lemma_lookup_sum_of_prefix(fractions, inputs, front, front.len());
    }
}

/// A table that nothing looks up has the sum zero.
proof fn lemma_sum_of_nothing(fractions: Seq<SecureValue>, multiplicities: Seq<int>, n: nat)
    requires
        fractions.len() >= n,
        forall|v: int| 0 <= v < n ==> (#[trigger] fractions[v]).reduced(),
        forall|v: int| 0 <= v < n ==> #[trigger] multiplicities[v] == 0,
    ensures
        logup_sum(fractions, multiplicities, n) == SecureValue::zero(),
    decreases n,
{
    if n > 0 {
        let last = n - 1;
        lemma_sum_of_nothing(fractions, multiplicities, last as nat);
        lemma_mul_from_base(fractions[last], 0);
        assert(scale(fractions[last], 0).reduce() == SecureValue::zero()) by {
            assert(0 * fractions[last].a == 0 && 0 * fractions[last].b == 0 && 0
                * fractions[last].c == 0 && 0 * fractions[last].d == 0) by (nonlinear_arith);
        }
        lemma_small_mod(0, P as nat);
    }
}

/// The sum of the fractions of the first lookups is the same whatever
/// follows them.
proof fn lemma_lookup_sum_of_prefix(
    fractions: Seq<SecureValue>,
    inputs: Seq<M31>,
    front: Seq<M31>,
    k: nat,
)
    requires
        k <= front.len() <= inputs.len(),
        forall|j: int| 0 <= j < front.len() ==> front[j] == inputs[j],
    ensures
        lookup_sum(fractions, inputs, k) == lookup_sum(fractions, front, k),
    decreases k,
{
    if k > 0 {
        lemma_lookup_sum_of_prefix(fractions, inputs, front, (k - 1) as nat);
    }
}

} // verus!
