//! From a finished run of the Cairo machine to what the prover takes.

use vstd::prelude::*;

use crate::felt252::Felt252;
use crate::instruction::{Instruction, ENCODING_BOUND};
use crate::m31::{M31, P};
use crate::memory::{big_table, Memory, ID_CAPACITY};

verus! {

/// Why a run cannot be adapted.
#[derive(Clone, Copy, Debug, PartialEq, Eq, Structural)]
pub enum VmImportError {
    /// An instruction of the trace is no instruction of the machine.
    UnknownOpcode,
    /// The run holds no relocated trace.
    TraceNotRelocated,
    /// The memory or a register does not fit the prover's fields.
    MemoryInconsistency,
    /// A public memory address holds no value.
    PublicInputMismatch,
}

/// The registers at one step of the relocated trace.
#[derive(Clone, Copy, Debug, PartialEq, Eq, Structural)]
pub struct TraceEntry {
    pub pc: usize,
    pub ap: usize,
    pub fp: usize,
}

/// The registers at one step, as field elements.
#[derive(Clone, Copy, Debug)]
pub struct CasmState {
    pub pc: M31,
    pub ap: M31,
    pub fp: M31,
}

/// The addresses of a memory segment: its first, and the one after its last
/// used.
#[derive(Clone, Copy, Debug, PartialEq, Eq, Structural)]
pub struct MemorySegment {
    pub begin_addr: usize,
    pub stop_ptr: usize,
}

/// A named memory segment of the public input.
#[derive(Debug)]
pub struct NamedSegment {
    pub name: String,
    pub segment: MemorySegment,
}

/// What the adapter reads of a finished run.
#[derive(Debug)]
pub struct FinishedRun {
    /// The relocated memory: the value at each address that holds one.
    pub relocated_memory: Vec<Option<Felt252>>,
    /// The relocated trace, where the run was relocated with one.
    pub relocated_trace: Option<Vec<TraceEntry>>,
    /// The addresses of the public memory.
    pub public_memory_addresses: Vec<usize>,
    /// The memory segments of the public input.
    pub memory_segments: Vec<NamedSegment>,
}

/// The steps of a run, each under the opcode of its instruction, in the
/// order of the trace.
#[derive(Debug)]
pub struct CasmStatesByOpcode {
    /// The additions with an immediate: `dst = op0 + imm`.
    pub add_opcode_is_small_f_is_imm_t: Vec<CasmState>,
    /// The steps of every other instruction.
    pub generic_opcode: Vec<CasmState>,
}

/// The registers before the first step and after the last, and the steps
/// between. The last state of the trace is the final state, and no step.
#[derive(Debug)]
pub struct StateTransitions {
    pub initial_state: Option<CasmState>,
    pub final_state: Option<CasmState>,
    pub casm_states_by_opcode: CasmStatesByOpcode,
}

/// What the prover takes.
#[derive(Debug)]
pub struct ProverInput {
    pub memory: Memory,
    pub state_transitions: StateTransitions,
    pub public_memory_addresses: Vec<u32>,
    pub memory_segments: Vec<NamedSegment>,
}

/// The states of the trace that are steps: all but the last.
pub open spec fn steps(trace: Seq<TraceEntry>) -> Seq<TraceEntry> {
    if trace.len() == 0 {
        trace
    } else {
        trace.drop_last()
    }
}

/// The instruction at an address, where the address holds the encoding of
/// one.
pub open spec fn instruction_at(cells: Seq<Option<Felt252>>, pc: int) -> Option<Instruction> {
    if 0 <= pc < cells.len() && cells[pc] is Some && 0 <= cells[pc]->Some_0@ < ENCODING_BOUND {
        Some(Instruction::decoded(cells[pc]->Some_0@))
    } else {
        None
    }
}

/// Every step stands at an instruction.
pub open spec fn instructions_known(steps: Seq<TraceEntry>, cells: Seq<Option<Felt252>>) -> bool {
    forall|i: int| 0 <= i < steps.len() ==> instruction_at(cells, (#[trigger] steps[i]).pc as int) is Some
}

/// Whether a step is an addition with an immediate.
pub open spec fn is_add_step(step: TraceEntry, cells: Seq<Option<Felt252>>) -> bool {
    instruction_at(cells, step.pc as int) matches Some(instruction)
        && instruction.is_add_with_immediate()
}

/// The steps that are additions with an immediate, in their order.
pub open spec fn add_steps(steps: Seq<TraceEntry>, cells: Seq<Option<Felt252>>) -> Seq<TraceEntry>
    decreases steps.len(),
{
    if steps.len() == 0 {
        Seq::empty()
    } else if is_add_step(steps.last(), cells) {
        add_steps(steps.drop_last(), cells).push(steps.last())
    } else {
        add_steps(steps.drop_last(), cells)
    }
}

/// The steps of every other instruction, in their order.
pub open spec fn generic_steps(steps: Seq<TraceEntry>, cells: Seq<Option<Felt252>>) -> Seq<
    TraceEntry,
>
    decreases steps.len(),
{
    if steps.len() == 0 {
        Seq::empty()
    } else if is_add_step(steps.last(), cells) {
        generic_steps(steps.drop_last(), cells)
    } else {
        generic_steps(steps.drop_last(), cells).push(steps.last())
    }
}

/// The registers of a state, as numbers.
pub open spec fn entry_of(state: CasmState) -> TraceEntry {
    TraceEntry { pc: state.pc@ as usize, ap: state.ap@ as usize, fp: state.fp@ as usize }
}

/// The registers of states, as numbers.
pub open spec fn entries_of(states: Seq<CasmState>) -> Seq<TraceEntry> {
    states.map_values(|state: CasmState| entry_of(state))
}

/// The states hold the registers of the trace.
pub open spec fn states_match(states: Seq<CasmState>, trace: Seq<TraceEntry>) -> bool {
    &&& states.len() == trace.len()
    &&& forall|i: int|
        0 <= i < trace.len() ==> (#[trigger] states[i]).pc@ == trace[i].pc && states[i].ap@
            == trace[i].ap && states[i].fp@ == trace[i].fp
}

/// The instruction at an address.
fn read_instruction(cells: &Vec<Option<Felt252>>, pc: usize) -> (r: Option<Instruction>)
    ensures
        r == instruction_at(cells@, pc as int),
{
    if pc >= cells.len() {
        return None;
    }
    match &cells[pc] {
        Some(value) => {
            proof {
                crate::felt252::lemma_value_dominates(*value);
            }
            match value.to_u64() {
                Some(encoded) => Instruction::decode(encoded),
                None => None,
            }
        },
        None => None,
    }
}

/// The steps under their opcodes, where each stands at an instruction.
fn bucket_steps(states: &Vec<CasmState>, cells: &Vec<Option<Felt252>>, Ghost(trace): Ghost<
    Seq<TraceEntry>,
>) -> (r: Option<CasmStatesByOpcode>)
    requires
        states_match(states@, trace),
    ensures
        r is Some <==> instructions_known(steps(trace), cells@),
        r matches Some(buckets) ==> {
            &&& entries_of(buckets.add_opcode_is_small_f_is_imm_t@) == add_steps(
                steps(trace),
                cells@,
            )
            &&& entries_of(buckets.generic_opcode@) == generic_steps(steps(trace), cells@)
        },
{
    let mut adds: Vec<CasmState> = Vec::new();
    let mut others: Vec<CasmState> = Vec::new();
    let ghost all = steps(trace);
    let n: usize = if states.len() == 0 {
        0
    } else {
        states.len() - 1
    };
    let mut i: usize = 0;
    assert(entries_of(adds@) =~= add_steps(all.take(0), cells@));
    assert(entries_of(others@) =~= generic_steps(all.take(0), cells@));
    while i < n
        invariant
            0 <= i <= n,
            n == all.len(),
            all == steps(trace),
            states_match(states@, trace),
            instructions_known(all.take(i as int), cells@),
            entries_of(adds@) == add_steps(all.take(i as int), cells@),
            entries_of(others@) == generic_steps(all.take(i as int), cells@),
        decreases n - i,
    {
        let state: CasmState = states[i];
        proof {
            assert(all.take(i + 1).drop_last() =~= all.take(i as int));
            assert(all.take(i + 1).last() == trace[i as int]);
            assert(entry_of(state) == trace[i as int]);
        }
        match read_instruction(cells, state.pc.value() as usize) {
            Some(instruction) => {
                let ghost before_adds = entries_of(adds@);
                let ghost before_others = entries_of(others@);
                if instruction.is_add_imm() {
                    adds.push(state);
                    assert(entries_of(adds@) =~= before_adds.push(entry_of(state)));
                } else {
                    others.push(state);
                    assert(entries_of(others@) =~= before_others.push(entry_of(state)));
                }
                assert forall|k: int| 0 <= k < i + 1 implies instruction_at(
                    cells@,
                    (#[trigger] all.take(i + 1)[k]).pc as int,
                ) is Some by {
                    if k < i {
                        assert(all.take(i as int)[k] == all[k]);
                    }
                }
            },
            None => {
                assert(all[i as int] == trace[i as int]);
                return None;
            },
        }
        i = i + 1;
    }
    assert(all.take(n as int) =~= all);
    Some(CasmStatesByOpcode { add_opcode_is_small_f_is_imm_t: adds, generic_opcode: others })
}

/// The registers of every step are residues of the base field.
pub open spec fn registers_fit(trace: Seq<TraceEntry>) -> bool {
    forall|i: int|
        0 <= i < trace.len() ==> (#[trigger] trace[i]).pc < P && trace[i].ap < P && trace[i].fp < P
}

/// Every public address holds a value, and is a 32-bit number.
pub open spec fn public_addresses_resolve(
    addresses: Seq<usize>,
    cells: Seq<Option<Felt252>>,
) -> bool {
    forall|i: int|
        0 <= i < addresses.len() ==> (#[trigger] addresses[i]) < cells.len() && addresses[i]
            <= u32::MAX && cells[addresses[i] as int] is Some
}

/// The states of a trace whose registers fit.
fn states_of(trace: &Vec<TraceEntry>) -> (r: Option<Vec<CasmState>>)
    ensures
        r is Some <==> registers_fit(trace@),
        r matches Some(states) ==> states_match(states@, trace@),
{
    let mut states: Vec<CasmState> = Vec::new();
    let mut i: usize = 0;
    while i < trace.len()
        invariant
            0 <= i <= trace@.len(),
            states@.len() == i,
            registers_fit(trace@.take(i as int)),
            forall|k: int|
                0 <= k < i ==> (#[trigger] states@[k]).pc@ == trace@[k].pc && states@[k].ap@
                    == trace@[k].ap && states@[k].fp@ == trace@[k].fp,
        decreases trace@.len() - i,
    {
        let entry: TraceEntry = trace[i];
        if entry.pc >= P as usize || entry.ap >= P as usize || entry.fp >= P as usize {
            return None;
        }
        states.push(
            CasmState {
                pc: M31::from_u32_unchecked(entry.pc as u32),
                ap: M31::from_u32_unchecked(entry.ap as u32),
                fp: M31::from_u32_unchecked(entry.fp as u32),
            },
        );
        assert forall|k: int| 0 <= k < i + 1 implies (#[trigger] trace@.take(i + 1)[k]).pc < P
            && trace@.take(i + 1)[k].ap < P && trace@.take(i + 1)[k].fp < P by {
            if k < i {
                assert(trace@.take(i as int)[k] == trace@[k]);
            }
        }
        i = i + 1;
    }
    assert(trace@.take(trace@.len() as int) =~= trace@);
    Some(states)
}

/// The public addresses as 32-bit numbers, where each holds a value.
fn resolve_public_addresses(addresses: &Vec<usize>, memory: &Memory) -> (r: Option<Vec<u32>>)
    ensures
        r is Some <==> forall|i: int|
            0 <= i < addresses@.len() ==> (#[trigger] addresses@[i]) < memory.address_to_id@.len()
                && addresses@[i] <= u32::MAX && memory.address_to_id@[addresses@[i] as int] is Some,
        r matches Some(resolved) ==> {
            &&& resolved@.len() == addresses@.len()
            &&& forall|i: int| 0 <= i < addresses@.len() ==> #[trigger] resolved@[i] == addresses@[i]
        },
{
    let mut resolved: Vec<u32> = Vec::new();
    let mut i: usize = 0;
    while i < addresses.len()
        invariant
            0 <= i <= addresses@.len(),
            resolved@.len() == i,
            forall|k: int|
                0 <= k < i ==> (#[trigger] addresses@[k]) < memory.address_to_id@.len()
                    && addresses@[k] <= u32::MAX && memory.address_to_id@[addresses@[k] as int] is Some,
            forall|k: int| 0 <= k < i ==> #[trigger] resolved@[k] == addresses@[k],
        decreases addresses@.len() - i,
    {
        let address: usize = addresses[i];
        if address > u32::MAX as usize {
            return None;
        }
        match memory.id_at(address as u64) {
            Some(_) => {},
            None => {
                return None;
            },
        }
        resolved.push(address as u32);
        i = i + 1;
    }
    Some(resolved)
}

/// What the prover takes of a finished run: the memory with each value held
/// once, the steps under their opcodes, and the public data.
pub fn adapt_finished_runner(runner: FinishedRun) -> (r: Result<ProverInput, VmImportError>)
    ensures
        r == Err::<ProverInput, VmImportError>(VmImportError::TraceNotRelocated)
            <==> runner.relocated_trace is None,
        r == Err::<ProverInput, VmImportError>(VmImportError::MemoryInconsistency) <==> {
            &&& runner.relocated_trace matches Some(trace)
            &&& !registers_fit(trace@) || big_table(runner.relocated_memory@).len() > ID_CAPACITY
        },
        r == Err::<ProverInput, VmImportError>(VmImportError::PublicInputMismatch) <==> {
            &&& runner.relocated_trace matches Some(trace)
            &&& registers_fit(trace@)
            &&& big_table(runner.relocated_memory@).len() <= ID_CAPACITY
            &&& !public_addresses_resolve(
                runner.public_memory_addresses@,
                runner.relocated_memory@,
            )
        },
        r == Err::<ProverInput, VmImportError>(VmImportError::UnknownOpcode) <==> {
            &&& runner.relocated_trace matches Some(trace)
            &&& registers_fit(trace@)
            &&& big_table(runner.relocated_memory@).len() <= ID_CAPACITY
            &&& public_addresses_resolve(runner.public_memory_addresses@, runner.relocated_memory@)
            &&& !instructions_known(steps(trace@), runner.relocated_memory@)
        },
        r is Ok <==> {
            &&& runner.relocated_trace matches Some(trace)
            &&& registers_fit(trace@)
            &&& big_table(runner.relocated_memory@).len() <= ID_CAPACITY
            &&& public_addresses_resolve(runner.public_memory_addresses@, runner.relocated_memory@)
            &&& instructions_known(steps(trace@), runner.relocated_memory@)
        },
        r matches Ok(input) ==> {
            &&& runner.relocated_trace matches Some(trace)
            &&& input.memory.holds(runner.relocated_memory@)
            &&& input.memory.wf()
            &&& input.state_transitions.initial_state is Some <==> trace@.len() > 0
            &&& input.state_transitions.initial_state matches Some(state) ==> entry_of(state)
                == trace@[0]
            &&& input.state_transitions.final_state is Some <==> trace@.len() > 0
            &&& input.state_transitions.final_state matches Some(state) ==> entry_of(state)
                == trace@.last()
            &&& entries_of(
                input.state_transitions.casm_states_by_opcode.add_opcode_is_small_f_is_imm_t@,
            ) == add_steps(steps(trace@), runner.relocated_memory@)
            &&& entries_of(input.state_transitions.casm_states_by_opcode.generic_opcode@)
                == generic_steps(steps(trace@), runner.relocated_memory@)
            &&& input.public_memory_addresses@.len() == runner.public_memory_addresses@.len()
            &&& forall|i: int|
                0 <= i < runner.public_memory_addresses@.len()
                    ==> #[trigger] input.public_memory_addresses@[i]
                    == runner.public_memory_addresses@[i]
            &&& input.memory_segments == runner.memory_segments
        },
{
    let trace: Vec<TraceEntry> = match runner.relocated_trace {
        Some(trace) => trace,
        None => {
            return Err(VmImportError::TraceNotRelocated);
        },
    };
    let states: Vec<CasmState> = match states_of(&trace) {
        Some(states) => states,
        None => {
            return Err(VmImportError::MemoryInconsistency);
        },
    };
    let memory: Memory = match Memory::from_relocated(&runner.relocated_memory) {
        Some(memory) => memory,
        None => {
            return Err(VmImportError::MemoryInconsistency);
        },
    };
    let public_memory_addresses: Vec<u32> = match resolve_public_addresses(
        &runner.public_memory_addresses,
        &memory,
    ) {
        Some(addresses) => addresses,
        None => {
            proof {
                let cells = runner.relocated_memory@;
                if public_addresses_resolve(runner.public_memory_addresses@, cells) {
                    assert forall|i: int|
                        0 <= i < runner.public_memory_addresses@.len() implies (
                    #[trigger] runner.public_memory_addresses@[i]) < memory.address_to_id@.len()
                        && runner.public_memory_addresses@[i] <= u32::MAX
                        && memory.address_to_id@[runner.public_memory_addresses@[i] as int] is Some by {
                        let a = runner.public_memory_addresses@[i] as int;
                        assert(cells[a] is Some);
                    }
                }
            }
            return Err(VmImportError::PublicInputMismatch);
        },
    };
    proof {
        let cells = runner.relocated_memory@;
        assert forall|i: int| 0 <= i < runner.public_memory_addresses@.len() implies (
        #[trigger] runner.public_memory_addresses@[i]) < cells.len()
            && runner.public_memory_addresses@[i] <= u32::MAX
            && cells[runner.public_memory_addresses@[i] as int] is Some by {
            let a = runner.public_memory_addresses@[i] as int;
            assert(memory.address_to_id@[a] is Some);
            match cells[a] {
                Some(v) => {},
                None => {},
            }
        }
    }
    let casm_states_by_opcode: CasmStatesByOpcode = match bucket_steps(
        &states,
        &runner.relocated_memory,
        Ghost(trace@),
    ) {
        Some(buckets) => buckets,
        None => {
            return Err(VmImportError::UnknownOpcode);
        },
    };
    let initial_state: Option<CasmState> = if states.len() > 0 {
        Some(states[0])
    } else {
        None
    };
    let final_state: Option<CasmState> = if states.len() > 0 {
        Some(states[states.len() - 1])
    } else {
        None
    };
    Ok(
        ProverInput {
            memory,
            state_transitions: StateTransitions {
                initial_state,
                final_state,
                casm_states_by_opcode,
            },
            public_memory_addresses,
            memory_segments: runner.memory_segments,
        },
    )
}

} // verus!
