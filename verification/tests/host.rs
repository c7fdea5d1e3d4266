use stwo_cairo::env_macro::{get_arg_value, lookup_variable, ArgClause, EnvError, Expr, Variable};
use stwo_cairo::felt252::Felt252;
use stwo_cairo::host::{
    build_program_config, build_program_input, load_program, Arg, EntryPoint, EntryPointKind,
    HostError, Layout, MerkleChannel, ProgramLayout, Proof, RunConfig,
    STANDALONE_ENTRYPOINT_LENGTH,
};

fn entry(offset: usize, kind: EntryPointKind) -> EntryPoint {
    EntryPoint { offset, kind }
}

#[test]
fn program_runs_from_the_first_standalone_entrypoint() {
    let entrypoints = vec![
        entry(3, EntryPointKind::Bootloader),
        entry(10, EntryPointKind::Standalone),
        entry(20, EntryPointKind::Standalone),
    ];
    assert_eq!(
        load_program(&entrypoints),
        Ok(ProgramLayout { entrypoint: 1, start: 10, end: 14 })
    );
    assert_eq!(STANDALONE_ENTRYPOINT_LENGTH, 4);
}

#[test]
fn program_needs_a_standalone_entrypoint() {
    assert_eq!(load_program(&vec![]), Err(HostError::NoStandaloneEntrypoint));
    assert_eq!(
        load_program(&vec![entry(0, EntryPointKind::Bootloader)]),
        Err(HostError::NoStandaloneEntrypoint)
    );
}

#[test]
fn program_end_must_be_an_address() {
    assert_eq!(
        load_program(&vec![entry(usize::MAX - 3, EntryPointKind::Standalone)]),
        Err(HostError::ProgramSetup)
    );
    assert_eq!(
        load_program(&vec![entry(usize::MAX - 4, EntryPointKind::Standalone)]),
        Ok(ProgramLayout { entrypoint: 0, start: usize::MAX - 4, end: usize::MAX })
    );
}

#[test]
fn program_input_is_one_array_argument() {
    let serialized = vec![Felt252::from_u32(3), Felt252::from_u32(1000), Felt252::from_u32(0)];
    let user_args = build_program_input(serialized.clone());
    assert_eq!(user_args.len(), 1);
    assert_eq!(user_args[0].len(), 1);
    match &user_args[0][0] {
        Arg::Array(values) => {
            assert_eq!(values.len(), 3);
            for (value, expected) in values.iter().zip(serialized.iter()) {
                match value {
                    Arg::Value(v) => assert!(v.same(expected)),
                    other => panic!("unexpected argument {:?}", other),
                }
            }
        }
        other => panic!("unexpected argument {:?}", other),
    }
}

#[test]
fn program_input_without_values() {
    let user_args = build_program_input(Vec::new());
    assert_eq!(user_args.len(), 1);
    assert_eq!(user_args[0].len(), 1);
    assert!(matches!(&user_args[0][0], Arg::Array(values) if values.is_empty()));
}

#[test]
fn program_config() {
    for proof_mode in [false, true] {
        assert_eq!(
            build_program_config(proof_mode),
            Ok(RunConfig {
                allow_missing_builtins: Some(true),
                layout: Layout::AllCairo,
                proof_mode,
                secure_run: None,
                relocate_mem: true,
                trace_enabled: true,
            })
        );
    }
}

#[test]
fn proof_names_its_channel() {
    let elements = vec![Felt252::from_u32(1), Felt252::from_u32(2)];
    let blake = Proof::ProofBlake2s(elements.clone());
    let poseidon = Proof::ProofPoseidon252(elements);
    assert_eq!(blake.channel(), MerkleChannel::Blake2s);
    assert_eq!(poseidon.channel(), MerkleChannel::Poseidon252);
    assert_ne!(blake.channel(), poseidon.channel());
    assert_eq!(blake.elements().len(), 2);
    assert!(poseidon.elements()[1].same(&Felt252::from_u32(2)));
}

fn env(args: &Vec<ArgClause>, environment: &Vec<Variable>) -> Result<String, EnvError> {
    stwo_cairo::env_macro::env(args, environment)
}

fn literal(text: &str) -> ArgClause {
    ArgClause::Unnamed(Expr::String(Some(text.to_string())))
}

fn environment() -> Vec<Variable> {
    vec![
        Variable { name: "MAX_LOG_SIZE".to_string(), value: "20".to_string() },
        Variable { name: "EMPTY".to_string(), value: String::new() },
        Variable { name: "MAX_LOG_SIZE".to_string(), value: "21".to_string() },
    ]
}

#[test]
fn env_expands_to_the_value_of_the_variable() {
    assert_eq!(env(&vec![literal("MAX_LOG_SIZE")], &environment()), Ok("20".to_string()));
    assert_eq!(env(&vec![literal("EMPTY")], &environment()), Ok(String::new()));
}

#[test]
fn env_takes_one_argument() {
    assert_eq!(env(&vec![], &environment()), Err(EnvError::InvalidNumberOfArguments));
    assert_eq!(
        env(&vec![literal("EMPTY"), literal("EMPTY")], &environment()),
        Err(EnvError::InvalidNumberOfArguments)
    );
}

#[test]
fn env_takes_a_string_literal() {
    for arg in [
        ArgClause::Named,
        ArgClause::FieldInitShorthand,
        ArgClause::Unnamed(Expr::Other),
        ArgClause::Unnamed(Expr::String(None)),
    ] {
        assert_eq!(env(&vec![arg], &environment()), Err(EnvError::InvalidVariableName));
    }
}

#[test]
fn env_needs_the_variable_set() {
    assert_eq!(env(&vec![literal("MISSING")], &environment()), Err(EnvError::VariableNotSet));
    assert_eq!(env(&vec![literal("EMPTY")], &vec![]), Err(EnvError::VariableNotSet));
}

#[test]
fn env_diagnostics() {
    assert_eq!(EnvError::InvalidNumberOfArguments.message(), "Invalid number of arguments");
    assert_eq!(EnvError::InvalidVariableName.message(), "Invalid environment variable name");
    assert_eq!(EnvError::VariableNotSet.message(), "Environment variable not set");
}

#[test]
fn value_of_a_literal_argument() {
    assert_eq!(get_arg_value(&literal("A")), Some("A".to_string()));
    assert_eq!(get_arg_value(&ArgClause::Named), None);
    assert_eq!(get_arg_value(&ArgClause::Unnamed(Expr::Other)), None);
}

#[test]
fn first_variable_of_a_name_wins() {
    assert_eq!(
        lookup_variable(&environment(), &"MAX_LOG_SIZE".to_string()),
        Some("20".to_string())
    );
    assert_eq!(lookup_variable(&environment(), &"max_log_size".to_string()), None);
}
