//! What a host decides when it sets up a compiled program for a run.

use vstd::prelude::*;

use crate::felt252::Felt252;

verus! {

/// The number of instructions from a standalone entrypoint to its end: the
/// call of the program's body and the loop that follows it.
pub const STANDALONE_ENTRYPOINT_LENGTH: usize = 4;

/// What an entrypoint of an executable is for.
#[derive(Clone, Copy, Debug, PartialEq, Eq, Structural)]
pub enum EntryPointKind {
    /// For running under a bootloader.
    Bootloader,
    /// For running the executable as a program of its own.
    Standalone,
}

/// An entrypoint of an executable: where it starts in the bytecode, and what
/// it is for.
#[derive(Clone, Copy, Debug, PartialEq, Eq, Structural)]
pub struct EntryPoint {
    pub offset: usize,
    pub kind: EntryPointKind,
}

/// Why a host cannot set a program up.
#[derive(Clone, Copy, Debug, PartialEq, Eq, Structural)]
pub enum HostError {
    /// The executable has no standalone entrypoint.
    NoStandaloneEntrypoint,
    /// The program's end is past the last address.
    ProgramSetup,
}

/// Where a program starts and ends, and which entrypoint of the executable
/// it runs from.
#[derive(Clone, Copy, Debug, PartialEq, Eq, Structural)]
pub struct ProgramLayout {
    pub entrypoint: usize,
    pub start: usize,
    pub end: usize,
}

/// The memory layout of the machine.
#[derive(Clone, Copy, Debug, PartialEq, Eq, Structural)]
pub enum Layout {
    Plain,
    AllCairo,
}

/// How a program is run.
#[derive(Clone, Copy, Debug, PartialEq, Eq, Structural)]
pub struct RunConfig {
    pub allow_missing_builtins: Option<bool>,
    pub layout: Layout,
    pub proof_mode: bool,
    pub secure_run: Option<bool>,
    pub relocate_mem: bool,
    pub trace_enabled: bool,
}

/// An argument of a program: a value, or a list of arguments.
#[derive(Debug)]
pub enum Arg {
    Value(Felt252),
    Array(Vec<Arg>),
}

/// The hash of the Merkle channel under which a proof was made.
#[derive(Clone, Copy, Debug, PartialEq, Eq, Structural)]
pub enum MerkleChannel {
    Blake2s,
    Poseidon252,
}

/// A proof, as the field elements of its serialization, under one of the
/// two hashes. A proof made under one does not verify under the other.
#[derive(Debug)]
pub enum Proof {
    ProofBlake2s(Vec<Felt252>),
    ProofPoseidon252(Vec<Felt252>),
}

impl Proof {
    /// The channel under which the proof is to be verified.
    pub fn channel(&self) -> (channel: MerkleChannel)
        ensures
            channel == match self {
                Proof::ProofBlake2s(_) => MerkleChannel::Blake2s,
                Proof::ProofPoseidon252(_) => MerkleChannel::Poseidon252,
            },
    {
        match self {
            Proof::ProofBlake2s(_) => MerkleChannel::Blake2s,
            Proof::ProofPoseidon252(_) => MerkleChannel::Poseidon252,
        }
    }

    /// The field elements of the serialized proof.
    pub fn elements(&self) -> (elements: &Vec<Felt252>)
        ensures
            elements == match self {
                Proof::ProofBlake2s(elements) => elements,
                Proof::ProofPoseidon252(elements) => elements,
            },
    {
        match self {
            Proof::ProofBlake2s(elements) => elements,
            Proof::ProofPoseidon252(elements) => elements,
        }
    }
}

/// `i` is the place of the first standalone entrypoint.
pub open spec fn is_first_standalone(entrypoints: Seq<EntryPoint>, i: int) -> bool {
    &&& 0 <= i < entrypoints.len()
    &&& entrypoints[i].kind == EntryPointKind::Standalone
    &&& forall|k: int| 0 <= k < i ==> (#[trigger] entrypoints[k]).kind != EntryPointKind::Standalone
}

/// There is one first standalone entrypoint at most.
pub proof fn lemma_first_standalone_is_unique(entrypoints: Seq<EntryPoint>, i: int, j: int)
    requires
        is_first_standalone(entrypoints, i),
        is_first_standalone(entrypoints, j),
    ensures
        i == j,
{
    if i < j {
        assert(entrypoints[i].kind != EntryPointKind::Standalone);
    } else if j < i {
        assert(entrypoints[j].kind != EntryPointKind::Standalone);
    }
}

/// There is a standalone entrypoint.
pub open spec fn has_standalone(entrypoints: Seq<EntryPoint>) -> bool {
    exists|i: int|
        0 <= i < entrypoints.len() && (#[trigger] entrypoints[i]).kind == EntryPointKind::Standalone
}

/// The layout of the program of an executable: it runs from the first
/// standalone entrypoint, and ends four instructions after it.
pub fn load_program(entrypoints: &Vec<EntryPoint>) -> (r: Result<ProgramLayout, HostError>)
    ensures
        r == Err::<ProgramLayout, HostError>(HostError::NoStandaloneEntrypoint) <==> !has_standalone(
            entrypoints@,
        ),
        r == Err::<ProgramLayout, HostError>(HostError::ProgramSetup) <==> exists|i: int|
            is_first_standalone(entrypoints@, i) && entrypoints@[i].offset
                + STANDALONE_ENTRYPOINT_LENGTH > usize::MAX,
        r is Ok <==> exists|i: int|
            is_first_standalone(entrypoints@, i) && entrypoints@[i].offset
                + STANDALONE_ENTRYPOINT_LENGTH <= usize::MAX,
        r matches Ok(layout) ==> {
            &&& is_first_standalone(entrypoints@, layout.entrypoint as int)
            &&& layout.start == entrypoints@[layout.entrypoint as int].offset
            &&& layout.end == layout.start + STANDALONE_ENTRYPOINT_LENGTH
        },
{
    let mut i: usize = 0;
    while i < entrypoints.len()
        invariant
            0 <= i <= entrypoints@.len(),
            forall|k: int| 0 <= k < i ==> (#[trigger] entrypoints@[k]).kind != EntryPointKind::Standalone,
        decreases entrypoints@.len() - i,
    {
        let entrypoint: EntryPoint = entrypoints[i];
        if entrypoint.kind == EntryPointKind::Standalone {
            assert(is_first_standalone(entrypoints@, i as int));
            assert forall|j: int| is_first_standalone(entrypoints@, j) implies j == i by {}
            if entrypoint.offset > usize::MAX - STANDALONE_ENTRYPOINT_LENGTH {
                return Err(HostError::ProgramSetup);
            }
            return Ok(
                ProgramLayout {
                    entrypoint: i,
                    start: entrypoint.offset,
                    end: entrypoint.offset + STANDALONE_ENTRYPOINT_LENGTH,
                },
            );
        }
        i = i + 1;
    }
    Err(HostError::NoStandaloneEntrypoint)
}

/// The arguments of a program from the field elements of its input: one
/// argument list, whose one argument is the list of the values.
pub fn build_program_input(serialized: Vec<Felt252>) -> (user_args: Vec<Vec<Arg>>)
    ensures
        user_args@.len() == 1,
        user_args@[0]@.len() == 1,
        user_args@[0]@[0] matches Arg::Array(values) && values@.len() == serialized@.len()
            && forall|i: int|
            0 <= i < serialized@.len() ==> #[trigger] values@[i] == Arg::Value(serialized@[i]),
{
    let mut values: Vec<Arg> = Vec::new();
    let mut i: usize = 0;
    while i < serialized.len()
        invariant
            0 <= i <= serialized@.len(),
            values@.len() == i,
            forall|k: int| 0 <= k < i ==> #[trigger] values@[k] == Arg::Value(serialized@[k]),
        decreases serialized@.len() - i,
    {
        values.push(Arg::Value(serialized[i]));
        i = i + 1;
    }
    let mut arguments: Vec<Arg> = Vec::new();
    arguments.push(Arg::Array(values));
    let mut user_args: Vec<Vec<Arg>> = Vec::new();
    user_args.push(arguments);
    user_args
}

/// How the host runs a program: on the layout with every builtin, with those
/// that the program lacks allowed, with the memory relocated and the trace
/// kept.
pub fn build_program_config(proof_mode: bool) -> (r: Result<RunConfig, HostError>)
    ensures
        r == Ok::<RunConfig, HostError>(
            RunConfig {
                allow_missing_builtins: Some(true),
                layout: Layout::AllCairo,
                proof_mode,
                secure_run: None,
                relocate_mem: true,
                trace_enabled: true,
            },
        ),
{
    Ok(
        RunConfig {
            allow_missing_builtins: Some(true),
            layout: Layout::AllCairo,
            proof_mode,
            secure_run: None,
            relocate_mem: true,
            trace_enabled: true,
        },
    )
}

} // verus!
