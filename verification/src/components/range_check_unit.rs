//! The range-check unit: a lookup table of the values below a power of two,
//! with the number of times each was looked up.

use vstd::arithmetic::power::pow;
use vstd::arithmetic::power2::{is_pow2, is_pow2_equiv, lemma_pow2, pow2};
use vstd::prelude::*;

use crate::circle::{
    canonic_coset_first, canonic_coset_start, point_vanishing, point_vanishing_value,
    vanishing_denominator, BasePoint, CirclePoint,
};
use crate::algebra::{
    lemma_add_then_sub, lemma_fraction_times_denominator, lemma_partial_evals_of_coordinates,
    lemma_sub_laws,
};
use crate::channel::InteractionElements;
use crate::log2::{floor_log2, is_floor_log2, lemma_floor_log2_unique};
use crate::m31::{M31, P};
use crate::secure_field::{
    batch_inverse_values, from_partial_evals, quotient, secure_values, SecureValue, QM31,
    SECURE_EXTENSION_DEGREE,
};

verus! {

/// The name under which the unit's lookup challenge is drawn.
pub const RC_Z: &'static str = "RangeCheckUnit_Z";

/// The name under which the unit is registered.
pub const RC_COMPONENT_ID: &'static str = "RC_UNIT";

/// A column of base-field values over the canonic domain of `2^log_size`
/// points.
pub struct CircleEvaluation {
    pub log_size: u32,
    pub values: Vec<M31>,
}

pub struct RangeCheckUnitComponent {
    pub log_n_instances: u32,
}

pub struct RangeCheckUnitTraceGenerator {
    pub max_value: usize,
    pub multiplicities: Vec<u32>,
}

/// How often `v` occurs among the residues of `inputs`.
pub open spec fn occurrences(inputs: Seq<M31>, v: int) -> nat
    decreases inputs.len(),
{
    if inputs.len() == 0 {
        0
    } else {
        occurrences(inputs.drop_last(), v) + if inputs.last()@ == v {
            1nat
        } else {
            0nat
        }
    }
}

/// The occurrences in a prefix, one input longer.
pub proof fn lemma_occurrences_step(inputs: Seq<M31>, i: int, v: int)
    requires
        0 <= i < inputs.len(),
    ensures
        occurrences(inputs.take(i + 1), v) == occurrences(inputs.take(i), v) + if inputs[i]@ == v {
            1nat
        } else {
            0nat
        },
{
    assert(inputs.take(i + 1).drop_last() =~= inputs.take(i));
}

/// A prefix holds no more occurrences than the whole.
pub proof fn lemma_occurrences_prefix(inputs: Seq<M31>, i: int, v: int)
    requires
        0 <= i <= inputs.len(),
    ensures
        occurrences(inputs.take(i), v) <= occurrences(inputs, v),
    decreases inputs.len() - i,
{
    if i == inputs.len() {
        assert(inputs.take(i) =~= inputs);
    } else {
        lemma_occurrences_step(inputs, i, v);
        lemma_occurrences_prefix(inputs, i + 1, v);
    }
}

/// The unit's challenge among the challenges drawn.
pub open spec fn challenge(elements: InteractionElements) -> SecureValue {
    elements.spec_get(RC_Z@)->Some_0@
}

/// The denominator of the LogUp fraction of the table value `v` under the
/// challenge `z`.
pub open spec fn logup_denominator(z: SecureValue, v: int) -> SecureValue {
    z.sub(SecureValue::from_base(v))
}

/// The sum of the first `n` LogUp fractions, each the product of an inverse
/// denominator and a multiplicity.
pub open spec fn logup_sum(inverses: Seq<SecureValue>, multiplicities: Seq<int>, n: nat) -> SecureValue
    decreases n,
{
    if n == 0 {
        SecureValue::zero()
    } else {
        logup_sum(inverses, multiplicities, (n - 1) as nat).add(
            inverses[n - 1].mul(SecureValue::from_base(multiplicities[n - 1])),
        )
    }
}

/// The residues of a column.
pub open spec fn residues(values: Seq<M31>) -> Seq<int> {
    values.map_values(|x: M31| x@)
}

/// The extension-field element whose coordinates stand at row `i` of four
/// columns.
pub open spec fn secure_at(columns: Seq<CircleEvaluation>, i: int) -> SecureValue {
    SecureValue {
        a: columns[0].values@[i]@,
        b: columns[1].values@[i]@,
        c: columns[2].values@[i]@,
        d: columns[3].values@[i]@,
    }
}

/// The LogUp denominators of a table's values under the challenge `z`.
pub open spec fn logup_denominators(z: SecureValue, values: Seq<int>) -> Seq<SecureValue> {
    Seq::new(values.len(), |i: int| logup_denominator(z, values[i]))
}

/// The running LogUp sum of a table after row `i`, under the challenge `z`:
/// the sum of multiplicity over `z - value` up to that row.
pub open spec fn logup_running_sum(
    z: SecureValue,
    values: Seq<int>,
    multiplicities: Seq<int>,
    i: int,
) -> SecureValue {
    logup_sum(batch_inverse_values(logup_denominators(z, values)), multiplicities, (i + 1) as nat)
}

/// The LogUp constraint at row `i`: the step of the running sum, times the
/// denominator of the row, is the multiplicity of the row.
pub open spec fn logup_step_holds(
    columns: Seq<CircleEvaluation>,
    z: SecureValue,
    values: Seq<int>,
    multiplicities: Seq<int>,
    i: int,
) -> bool {
    let previous = if i == 0 {
        SecureValue::zero()
    } else {
        secure_at(columns, i - 1)
    };
    secure_at(columns, i).sub(previous).mul(logup_denominator(z, values[i]))
        == SecureValue::from_base(multiplicities[i])
}

/// A running LogUp sum has reduced coordinates.
pub proof fn lemma_logup_sum_reduced(inverses: Seq<SecureValue>, multiplicities: Seq<int>, n: nat)
    ensures
        logup_sum(inverses, multiplicities, n).reduced(),
{
}

/// `columns` are the four coordinate columns of the running LogUp sum of a
/// table with the given values and multiplicities, under the challenge `z`.
pub open spec fn is_logup_trace(
    columns: Seq<CircleEvaluation>,
    z: SecureValue,
    values: Seq<int>,
    multiplicities: Seq<int>,
) -> bool {
    &&& columns.len() == SECURE_EXTENSION_DEGREE
    &&& forall|j: int| 0 <= j < columns.len() ==> (#[trigger] columns[j]).values@.len() == values.len()
    &&& forall|i: int|
        0 <= i < values.len() ==> #[trigger] secure_at(columns, i) == logup_running_sum(
            z,
            values,
            multiplicities,
            i,
        )
}

impl RangeCheckUnitComponent {
    /// The unit has one constraint, on the LogUp column.
    pub fn n_constraints(&self) -> (n: usize)
        ensures
            n == 1,
    {
        1
    }

    pub fn max_constraint_log_degree_bound(&self) -> (bound: u32)
        requires
            self.log_n_instances < u32::MAX,
        ensures
            bound == self.log_n_instances + 1,
    {
        self.log_n_instances + 1
    }

    /// The table is committed first, the LogUp column after the challenge.
    pub fn n_interaction_phases(&self) -> (n: u32)
        ensures
            n == 2,
    {
        2
    }

    /// The log sizes of the columns: two of the table, then four of the
    /// LogUp sum.
    pub fn trace_log_degree_bounds(&self) -> (bounds: Vec<Vec<u32>>)
        ensures
            bounds@.len() == 2,
            bounds@[0]@ == Seq::new(2, |i: int| self.log_n_instances),
            bounds@[1]@ == Seq::new(SECURE_EXTENSION_DEGREE as nat, |i: int| self.log_n_instances),
    {
        let table: Vec<u32> = vec![self.log_n_instances; 2];
        let interaction: Vec<u32> = vec![self.log_n_instances; SECURE_EXTENSION_DEGREE];
        assert(table@ =~= Seq::new(2, |i: int| self.log_n_instances));
        assert(interaction@ =~= Seq::new(
            SECURE_EXTENSION_DEGREE as nat,
            |i: int| self.log_n_instances,
        ));
        let mut bounds: Vec<Vec<u32>> = Vec::new();
        bounds.push(table);
        bounds.push(interaction);
        bounds
    }
}

/// The mask holds what the boundary constraint reads: in the first tree the
/// table's value and multiplicity, in the second the four coordinates of the
/// LogUp sum, each at the point itself.
pub open spec fn mask_wf(mask: Seq<Vec<Vec<QM31>>>) -> bool {
    &&& mask.len() >= 2
    &&& mask[0]@.len() >= 2
    &&& mask[0]@[0]@.len() >= 1
    &&& mask[0]@[1]@.len() >= 1
    &&& mask[1]@.len() >= SECURE_EXTENSION_DEGREE
    &&& forall|j: int| 0 <= j < SECURE_EXTENSION_DEGREE ==> (#[trigger] mask[1]@[j])@.len() >= 1
}

/// The numerator of the boundary constraint on the first row, where the
/// LogUp sum `s` of a table row `(value, multiplicity)` satisfies
/// `s * (z - value) = multiplicity`.
pub open spec fn boundary_numerator(mask: Seq<Vec<Vec<QM31>>>, z: SecureValue) -> SecureValue {
    let sum = from_partial_evals(
        mask[1]@[0]@[0]@,
        mask[1]@[1]@[0]@,
        mask[1]@[2]@[0]@,
        mask[1]@[3]@[0]@,
    );
    sum.mul(z.sub(mask[0]@[0]@[0]@)).sub(mask[0]@[1]@[0]@)
}

impl RangeCheckUnitComponent {
    /// The points at which each column is opened: the one column of the one
    /// tree at the point itself.
    pub fn mask_points(&self, point: CirclePoint) -> (points: Vec<Vec<Vec<CirclePoint>>>)
        ensures
            points@.len() == 1,
            points@[0]@.len() == 1,
            points@[0]@[0]@ == seq![point],
    {
        let mut column: Vec<CirclePoint> = Vec::new();
        column.push(point);
        let mut tree: Vec<Vec<CirclePoint>> = Vec::new();
        tree.push(column);
        let mut points: Vec<Vec<Vec<CirclePoint>>> = Vec::new();
        points.push(tree);
        assert(points@[0]@[0]@ =~= seq![point]);
        points
    }

    /// The quotient of the boundary constraint at `point`: its numerator over
    /// the vanishing polynomial of the zero domain's first point. There is
    /// none where `point` is that first point or its antipode.
    pub fn evaluate_lookup_boundary_constraints_at_point(
        &self,
        point: &CirclePoint,
        mask: &Vec<Vec<Vec<QM31>>>,
        interaction_elements: &InteractionElements,
        constraint_zero_domain_start: &BasePoint,
    ) -> (evaluation: Option<QM31>)
        requires
            mask_wf(mask@),
            interaction_elements.spec_get(RC_Z@) is Some,
        ensures
            evaluation is None <==> {
                ||| vanishing_denominator(
                    point.x@,
                    point.y@,
                    constraint_zero_domain_start.x@,
                    constraint_zero_domain_start.y@,
                ) == SecureValue::zero()
                ||| point_vanishing_value(
                    point.x@,
                    point.y@,
                    constraint_zero_domain_start.x@,
                    constraint_zero_domain_start.y@,
                ) == SecureValue::zero()
            },
            evaluation matches Some(q) ==> q@ == quotient(
                boundary_numerator(mask@, challenge(*interaction_elements)),
                point_vanishing_value(
                    point.x@,
                    point.y@,
                    constraint_zero_domain_start.x@,
                    constraint_zero_domain_start.y@,
                ),
            ),
    {
        let z: QM31 = interaction_elements.get(RC_Z).unwrap();
        let evals: [QM31; 4] = [mask[1][0][0], mask[1][1][0], mask[1][2][0], mask[1][3][0]];
        let sum: QM31 = QM31::from_partial_evals(&evals);
        let numerator: QM31 = sum.mul(&z.sub(&mask[0][0][0])).sub(&mask[0][1][0]);
        match point_vanishing(constraint_zero_domain_start, point) {
            Some(denominator) => numerator.checked_div(&denominator),
            None => None,
        }
    }

    /// The quotient of the unit's one constraint at `point`, over the canonic
    /// coset of the unit's size. There is none where the size has no canonic
    /// coset, or where `point` is the coset's first point or its antipode.
    pub fn evaluate_constraint_quotients_at_point(
        &self,
        point: &CirclePoint,
        mask: &Vec<Vec<Vec<QM31>>>,
        interaction_elements: &InteractionElements,
    ) -> (evaluation: Option<QM31>)
        requires
            mask_wf(mask@),
            interaction_elements.spec_get(RC_Z@) is Some,
        ensures
            evaluation is None <==> {
                let start = canonic_coset_start(self.log_n_instances as int);
                ||| !(1 <= self.log_n_instances <= 30)
                ||| vanishing_denominator(point.x@, point.y@, start.0, start.1)
                    == SecureValue::zero()
                ||| point_vanishing_value(point.x@, point.y@, start.0, start.1)
                    == SecureValue::zero()
            },
            evaluation matches Some(q) ==> {
                let start = canonic_coset_start(self.log_n_instances as int);
                q@ == quotient(
                    boundary_numerator(mask@, challenge(*interaction_elements)),
                    point_vanishing_value(point.x@, point.y@, start.0, start.1),
                )
            },
    {
        match canonic_coset_first(self.log_n_instances) {
            Some(start) => self.evaluate_lookup_boundary_constraints_at_point(
                point,
                mask,
                interaction_elements,
                &start,
            ),
            None => None,
        }
    }
}

/// The mask holds the first row of a table and of its LogUp columns.
pub open spec fn mask_of_first_row(
    mask: Seq<Vec<Vec<QM31>>>,
    columns: Seq<CircleEvaluation>,
    values: Seq<int>,
    multiplicities: Seq<int>,
) -> bool {
    &&& mask_wf(mask)
    &&& mask[0]@[0]@[0]@ == SecureValue::from_base(values[0])
    &&& mask[0]@[1]@[0]@ == SecureValue::from_base(multiplicities[0])
    &&& forall|j: int|
        0 <= j < SECURE_EXTENSION_DEGREE ==> (#[trigger] mask[1]@[j])@[0]@ == SecureValue::from_base(
            columns[j].values@[0]@,
        )
}

/// The boundary constraint holds on the first row of a LogUp trace: where
/// the first step of the running sum meets the LogUp constraint, the
/// numerator of the boundary constraint is zero.
pub proof fn lemma_first_row_meets_the_boundary(
    mask: Seq<Vec<Vec<QM31>>>,
    columns: Seq<CircleEvaluation>,
    z: SecureValue,
    values: Seq<int>,
    multiplicities: Seq<int>,
)
    requires
        mask_of_first_row(mask, columns, values, multiplicities),
        logup_step_holds(columns, z, values, multiplicities, 0),
        secure_at(columns, 0).reduced(),
        0 <= multiplicities[0] < P,
    ensures
        boundary_numerator(mask, z) == SecureValue::zero(),
{
    let sum = secure_at(columns, 0);
    assert(mask[1]@[0]@[0]@ == SecureValue::from_base(sum.a));
    assert(mask[1]@[1]@[0]@ == SecureValue::from_base(sum.b));
    assert(mask[1]@[2]@[0]@ == SecureValue::from_base(sum.c));
    assert(mask[1]@[3]@[0]@ == SecureValue::from_base(sum.d));
    lemma_partial_evals_of_coordinates(sum);
    lemma_sub_laws(sum);
    lemma_sub_laws(SecureValue::from_base(multiplicities[0]));
}

impl RangeCheckUnitTraceGenerator {
    /// The table has a power of two of rows, one multiplicity for each.
    pub open spec fn wf(&self) -> bool {
        &&& is_pow2(self.max_value as int)
        &&& self.multiplicities@.len() == self.max_value
    }

    /// A unit for the values below `max_value`, none looked up yet.
    pub fn new(max_value: usize) -> (r: Self)
        requires
            is_pow2(max_value as int),
        ensures
            r.wf(),
            r.max_value == max_value,
            r.multiplicities@ == Seq::new(max_value as nat, |i: int| 0u32),
    {
        let multiplicities: Vec<u32> = vec![0; max_value];
        assert(multiplicities@ =~= Seq::new(max_value as nat, |i: int| 0u32));
        Self { max_value, multiplicities }
    }

    /// Counts one lookup for each input.
    pub fn add_inputs(&mut self, inputs: &Vec<M31>)
        requires
            old(self).wf(),
            forall|i: int| 0 <= i < inputs@.len() ==> (#[trigger] inputs@[i])@ < old(self).max_value,
            forall|v: int|
                0 <= v < old(self).max_value ==> old(self).multiplicities@[v] + occurrences(
                    inputs@,
                    v,
                ) <= u32::MAX,
        ensures
            final(self).wf(),
            final(self).max_value == old(self).max_value,
            forall|v: int|
                0 <= v < old(self).max_value ==> #[trigger] final(self).multiplicities@[v] == old(
                    self,
                ).multiplicities@[v] + occurrences(inputs@, v),
    {
        let mut i: usize = 0;
        assert(inputs@.take(0) =~= Seq::<M31>::empty());
        while i < inputs.len()
            invariant
                0 <= i <= inputs@.len(),
                self.wf(),
                self.max_value == old(self).max_value,
                forall|k: int| 0 <= k < inputs@.len() ==> (#[trigger] inputs@[k])@ < self.max_value,
                forall|v: int|
                    0 <= v < old(self).max_value ==> old(self).multiplicities@[v] + occurrences(
                        inputs@,
                        v,
                    ) <= u32::MAX,
                forall|v: int|
                    0 <= v < self.max_value ==> #[trigger] self.multiplicities@[v] == old(
                        self,
                    ).multiplicities@[v] + occurrences(inputs@.take(i as int), v),
            decreases inputs@.len() - i,
        {
            let input: usize = inputs[i].value() as usize;
            let count: u32 = self.multiplicities[input];
            proof {
                lemma_occurrences_step(inputs@, i as int, input as int);
                lemma_occurrences_prefix(inputs@, i + 1, input as int);
                assert forall|v: int| 0 <= v < self.max_value implies occurrences(
                    inputs@.take(i + 1),
                    v,
                ) == occurrences(inputs@.take(i as int), v) + if v == input {
                    1nat
                } else {
                    0nat
                } by {
                    lemma_occurrences_step(inputs@, i as int, v);
                }
            }
            self.multiplicities.set(input, count + 1);
            i = i + 1;
        }
        assert(inputs@.take(inputs@.len() as int) =~= inputs@);
    }

    /// The two columns of the table: the values in order, and how often each
    /// was looked up.
    pub fn write_trace(&self) -> (trace: Vec<CircleEvaluation>)
        requires
            self.wf(),
        ensures
            trace@.len() == 2,
            forall|j: int|
                0 <= j < 2 ==> {
                    &&& pow2((#[trigger] trace@[j]).log_size as nat) == self.max_value
                    &&& trace@[j].values@.len() == self.max_value
                },
            forall|i: int|
                0 <= i < self.max_value ==> (#[trigger] trace@[0].values@[i])@ == i % (P as int),
            forall|i: int|
                0 <= i < self.max_value ==> (#[trigger] trace@[1].values@[i])@
                    == self.multiplicities@[i] % P,
    {
        let log_size: u32 = self.component().log_n_instances;
        let mut values: Vec<M31> = Vec::new();
        let mut counts: Vec<M31> = Vec::new();
        let mut i: usize = 0;
        while i < self.max_value
            invariant
                0 <= i <= self.max_value,
                self.wf(),
                values@.len() == i,
                counts@.len() == i,
                forall|k: int| 0 <= k < i ==> (#[trigger] values@[k])@ == k % (P as int),
                forall|k: int|
                    0 <= k < i ==> (#[trigger] counts@[k])@ == self.multiplicities@[k] % P,
            decreases self.max_value - i,
        {
            let residue: u32 = (i % (P as usize)) as u32;
            values.push(M31::from_u32_unchecked(residue));
            counts.push(M31::from_u32(self.multiplicities[i]));
            i = i + 1;
        }
        let mut trace: Vec<CircleEvaluation> = Vec::new();
        trace.push(CircleEvaluation { log_size, values });
        trace.push(CircleEvaluation { log_size, values: counts });
        trace
    }

    /// The four coordinate columns of the running LogUp sum of a table, under
    /// the challenge `z`: row by row, the sum of multiplicity over
    /// `z - value` up to that row.
    pub fn write_interaction_trace(
        &self,
        trace: &Vec<CircleEvaluation>,
        elements: &InteractionElements,
    ) -> (columns: Vec<CircleEvaluation>)
        requires
            elements.spec_get(RC_Z@) is Some,
            trace@.len() >= 2,
            trace@[0].values@.len() == trace@[1].values@.len(),
            forall|i: int|
                0 <= i < trace@[0].values@.len() ==> logup_denominator(
                    challenge(*elements),
                    (#[trigger] trace@[0].values@[i])@,
                ) != SecureValue::zero(),
        ensures
            is_logup_trace(columns@, challenge(*elements), residues(trace@[0].values@), residues(trace@[1].values@)),
            forall|j: int|
                0 <= j < columns@.len() ==> (#[trigger] columns@[j]).log_size == trace@[0].log_size,
            forall|i: int|
                0 <= i < trace@[0].values@.len() ==> {
                    let fraction = #[trigger] batch_inverse_values(
                        logup_denominators(challenge(*elements), residues(trace@[0].values@)),
                    )[i];
                    &&& fraction.reduced()
                    &&& logup_denominator(
                        challenge(*elements),
                        trace@[0].values@[i]@,
                    ).is_inverse_of(fraction)
                },
            forall|i: int|
                0 <= i < trace@[0].values@.len() ==> logup_step_holds(
                    columns@,
                    challenge(*elements),
                    residues(trace@[0].values@),
                    residues(trace@[1].values@),
                    i,
                ),
    {
        let z: QM31 = elements.get(RC_Z).unwrap();
        let n: usize = trace[0].values.len();
        let ghost values = residues(trace@[0].values@);
        let ghost multiplicities = residues(trace@[1].values@);
        let mut denominators: Vec<QM31> = Vec::new();
        let mut i: usize = 0;
        while i < n
            invariant
                0 <= i <= n,
                trace@.len() >= 2,
                n == trace@[0].values@.len(),
                denominators@.len() == i,
                forall|k: int|
                    0 <= k < i ==> (#[trigger] denominators@[k])@ == logup_denominator(
                        z@,
                        trace@[0].values@[k]@,
                    ),
            decreases n - i,
        {
            denominators.push(z.sub(&QM31::from_base(trace[0].values[i])));
            i = i + 1;
        }
        assert(secure_values(denominators@) =~= logup_denominators(z@, values));
        let inverses: Vec<QM31> = QM31::batch_inverse(&denominators);
        let ghost inverse_values = secure_values(inverses@);

        let mut last: QM31 = QM31::zero();
        let mut first: Vec<M31> = Vec::new();
        let mut second: Vec<M31> = Vec::new();
        let mut third: Vec<M31> = Vec::new();
        let mut fourth: Vec<M31> = Vec::new();
        let mut i: usize = 0;
        while i < n
            invariant
                0 <= i <= n,
                trace@.len() >= 2,
                n == trace@[0].values@.len(),
                n == trace@[1].values@.len(),
                inverses@.len() == n,
                inverse_values == secure_values(inverses@),
                multiplicities == residues(trace@[1].values@),
                last@ == logup_sum(inverse_values, multiplicities, i as nat),
                forall|k: int| 0 <= k < i ==> 0 <= #[trigger] multiplicities[k] < P,
                first@.len() == i,
                second@.len() == i,
                third@.len() == i,
                fourth@.len() == i,
                forall|k: int|
                    0 <= k < i ==> (SecureValue {
                        a: (#[trigger] first@[k])@,
                        b: second@[k]@,
                        c: third@[k]@,
                        d: fourth@[k]@,
                    }) == logup_sum(inverse_values, multiplicities, (k + 1) as nat),
            decreases n - i,
        {
            let multiplicity: M31 = trace[1].values[i];
            let residue: u32 = multiplicity.value();
            assert(multiplicities[i as int] == residue);
            let term: QM31 = inverses[i].mul(&QM31::from_base(multiplicity));
            let sum: QM31 = last.add(&term);
            let coordinates: [M31; 4] = sum.to_m31_array();
            first.push(coordinates[0]);
            second.push(coordinates[1]);
            third.push(coordinates[2]);
            fourth.push(coordinates[3]);
            last = sum;
            i = i + 1;
        }
        let log_size: u32 = trace[0].log_size;
        let mut columns: Vec<CircleEvaluation> = Vec::new();
        columns.push(CircleEvaluation { log_size, values: first });
        columns.push(CircleEvaluation { log_size, values: second });
        columns.push(CircleEvaluation { log_size, values: third });
        columns.push(CircleEvaluation { log_size, values: fourth });
        proof {
            assert forall|k: int| 0 <= k < values.len() implies #[trigger] secure_at(columns@, k)
                == logup_running_sum(z@, values, multiplicities, k) by {
                assert(columns@[0].values@[k] == first@[k]);
            }
            assert forall|k: int| 0 <= k < values.len() implies (#[trigger] inverse_values[k]).reduced()
                && logup_denominator(z@, trace@[0].values@[k]@).is_inverse_of(
                inverse_values[k],
            ) by {
                assert(denominators@[k]@.is_inverse_of(inverses@[k]@));
                assert(inverses@[k]@.reduced());
            }
            assert forall|k: int| 0 <= k < values.len() implies logup_step_holds(
                columns@,
                z@,
                values,
                multiplicities,
                k,
            ) by {
                let previous = logup_sum(inverse_values, multiplicities, k as nat);
                let term = inverse_values[k].mul(SecureValue::from_base(multiplicities[k]));
                lemma_logup_sum_reduced(inverse_values, multiplicities, k as nat);
                assert(secure_at(columns@, k) == logup_running_sum(z@, values, multiplicities, k));
                assert(secure_at(columns@, k) == previous.add(term));
                if k > 0 {
                    assert(secure_at(columns@, k - 1) == logup_running_sum(
                        z@,
                        values,
                        multiplicities,
                        k - 1,
                    ));
                }
                lemma_add_then_sub(previous, term);
                assert(logup_denominator(z@, values[k]).is_inverse_of(inverse_values[k]));
                lemma_fraction_times_denominator(
                    inverse_values[k],
                    logup_denominator(z@, values[k]),
                    multiplicities[k],
                );
            }
        }
        columns
    }

    /// The component that checks this unit's table.
    pub fn component(&self) -> (component: RangeCheckUnitComponent)
        requires
            self.wf(),
        ensures
            pow2(component.log_n_instances as nat) == self.max_value,
    {
        proof {
            is_pow2_equiv(self.max_value as int);
            reveal(is_pow2);
        }
        let log_n_instances: u32 = floor_log2(self.max_value);
        proof {
            let e = choose|e: nat| pow(2, e) == self.max_value as int;
            lemma_pow2(e);
            lemma_pow2(e + 1);
            assert(pow2(e) == self.max_value);
            vstd::arithmetic::power2::lemma_pow2_strictly_increases(e, e + 1);
            assert(is_floor_log2(self.max_value as int, e as int));
            lemma_floor_log2_unique(self.max_value as int, e as int, log_n_instances as int);
        }
        RangeCheckUnitComponent { log_n_instances }
    }
}

} // verus!
