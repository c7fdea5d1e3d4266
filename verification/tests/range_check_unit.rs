use stwo_cairo::channel::{InteractionElement, InteractionElements};
use stwo_cairo::components::range_check_unit::{
    CircleEvaluation, RangeCheckUnitComponent, RangeCheckUnitTraceGenerator, RC_COMPONENT_ID, RC_Z,
};
use stwo_cairo::m31::M31;
use stwo_cairo::secure_field::QM31;

fn inputs_with_counts(counts: &[usize]) -> Vec<M31> {
    let mut inputs = Vec::new();
    for (value, count) in counts.iter().enumerate() {
        for _ in 0..*count {
            inputs.push(M31::from_u32_unchecked(value as u32));
        }
    }
    inputs
}

fn elements_with(z: QM31) -> InteractionElements {
    InteractionElements {
        elements: vec![
            InteractionElement { name: "Other".to_string(), value: QM31::one() },
            InteractionElement { name: RC_Z.to_string(), value: z },
            InteractionElement { name: RC_Z.to_string(), value: QM31::zero() },
        ],
    }
}

fn secure_at(columns: &[CircleEvaluation], row: usize) -> QM31 {
    QM31::from_m31(
        columns[0].values[row],
        columns[1].values[row],
        columns[2].values[row],
        columns[3].values[row],
    )
}

#[test]
fn test_rc_unit_trace() {
    let mut generator = RangeCheckUnitTraceGenerator::new(8);
    let inputs = inputs_with_counts(&[3, 1, 2, 5, 10, 1, 0, 1]);
    generator.add_inputs(&inputs);

    let trace = generator.write_trace();
    let random_value = QM31::from_u32(1, 2, 3, 117);
    let interaction_elements = elements_with(random_value);
    let interaction_trace = generator.write_interaction_trace(&trace, &interaction_elements);

    let mut trace_sum = QM31::zero();
    for i in 0..8 {
        assert_eq!(trace[0].values[i], M31::from_u32_unchecked(i as u32));
        let denominator = random_value.sub(&QM31::from_base(M31::from_u32_unchecked(i as u32)));
        let fraction = QM31::from_base(trace.last().unwrap().values[i])
            .checked_div(&denominator)
            .unwrap();
        trace_sum = trace_sum.add(&fraction);
    }
    let logup_sum = secure_at(&interaction_trace, 7);

    assert_eq!(logup_sum, trace_sum);
}

#[test]
fn names_of_the_unit() {
    assert_eq!(RC_Z, "RangeCheckUnit_Z");
    assert_eq!(RC_COMPONENT_ID, "RC_UNIT");
}

#[test]
fn new_unit_has_no_lookups() {
    let generator = RangeCheckUnitTraceGenerator::new(16);
    assert_eq!(generator.max_value, 16);
    assert_eq!(generator.multiplicities, vec![0u32; 16]);
}

#[test]
fn add_inputs_counts_each_value() {
    let mut generator = RangeCheckUnitTraceGenerator::new(4);
    generator.add_inputs(&inputs_with_counts(&[2, 0, 1, 3]));
    generator.add_inputs(&inputs_with_counts(&[1, 1, 0, 0]));
    assert_eq!(generator.multiplicities, vec![3, 1, 1, 3]);
}

#[test]
fn write_trace_lists_values_and_multiplicities() {
    let mut generator = RangeCheckUnitTraceGenerator::new(4);
    generator.add_inputs(&inputs_with_counts(&[2, 0, 1, 3]));
    let trace = generator.write_trace();
    assert_eq!(trace.len(), 2);
    let values: Vec<u32> = trace[0].values.iter().map(|v| v.value()).collect();
    let counts: Vec<u32> = trace[1].values.iter().map(|v| v.value()).collect();
    assert_eq!(values, vec![0, 1, 2, 3]);
    assert_eq!(counts, vec![2, 0, 1, 3]);
    assert_eq!(trace[0].log_size, 2);
    assert_eq!(trace[1].log_size, 2);
}

#[test]
fn write_trace_reduces_multiplicities() {
    let mut generator = RangeCheckUnitTraceGenerator::new(2);
    generator.multiplicities = vec![2147483647, 2147483648];
    let trace = generator.write_trace();
    let counts: Vec<u32> = trace[1].values.iter().map(|v| v.value()).collect();
    assert_eq!(counts, vec![0, 1]);
}

#[test]
fn component_has_log_of_table_size() {
    assert_eq!(RangeCheckUnitTraceGenerator::new(1).component().log_n_instances, 0);
    assert_eq!(RangeCheckUnitTraceGenerator::new(8).component().log_n_instances, 3);
    assert_eq!(RangeCheckUnitTraceGenerator::new(1 << 20).component().log_n_instances, 20);
}

#[test]
fn component_shape() {
    let component = RangeCheckUnitComponent { log_n_instances: 5 };
    assert_eq!(component.n_constraints(), 1);
    assert_eq!(component.max_constraint_log_degree_bound(), 6);
    assert_eq!(component.n_interaction_phases(), 2);
    assert_eq!(component.trace_log_degree_bounds(), vec![vec![5, 5], vec![5, 5, 5, 5]]);
}

#[test]
fn logup_steps_satisfy_the_linear_relation() {
    let mut generator = RangeCheckUnitTraceGenerator::new(4);
    generator.add_inputs(&inputs_with_counts(&[1, 2, 0, 7]));
    let trace = generator.write_trace();
    let z = QM31::from_u32(5, 0, 11, 3);
    let columns = generator.write_interaction_trace(&trace, &elements_with(z));
    assert_eq!(columns.len(), 4);
    let mut previous = QM31::zero();
    for i in 0..4 {
        let current = secure_at(&columns, i);
        let denominator = z.sub(&QM31::from_base(trace[0].values[i]));
        let step = current.sub(&previous).mul(&denominator);
        assert_eq!(step, QM31::from_base(trace[1].values[i]));
        assert_eq!(columns[i].log_size, 2);
        previous = current;
    }
}

#[test]
fn interaction_elements_by_name() {
    let z = QM31::from_u32(1, 2, 3, 117);
    let elements = elements_with(z);
    assert_eq!(elements.get(RC_Z), Some(z));
    assert_eq!(elements.get("Other"), Some(QM31::one()));
    assert_eq!(elements.get("RangeCheckUnit_z"), None);
    assert_eq!(InteractionElements { elements: vec![] }.get(RC_Z), None);
}

#[test]
fn sum_of_the_table_is_the_sum_over_the_lookups() {
    let inputs = inputs_with_counts(&[2, 0, 5, 1, 0, 0, 3, 1]);
    let mut generator = RangeCheckUnitTraceGenerator::new(8);
    generator.add_inputs(&inputs);
    let trace = generator.write_trace();
    let z = QM31::from_u32(11, 7, 5, 3);
    let columns = generator.write_interaction_trace(&trace, &elements_with(z));
    let total = secure_at(&columns, 7);
    let mut lookups = QM31::zero();
    for input in inputs.iter() {
        let fraction = z.sub(&QM31::from_base(*input)).inverse();
        lookups = lookups.add(&fraction);
    }
    assert_eq!(total, lookups);
}
