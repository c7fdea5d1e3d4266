//! The instruction table: each instruction that a step runs, at its address,
//! with the number of steps that run it. Every opcode component looks its
//! instruction up here once for each of its rows.

use vstd::prelude::*;

use crate::adapter::CasmState;
use crate::components::add_opcode_is_small_f_is_imm_t::{
    verify_instruction_values, AP_UPDATE_ADD_1, DST_BASE_FP, INPUT_PC, N_TRACE_COLUMNS, OFFSET0,
    OFFSET1, OP0_BASE_FP,
};
use crate::components::range_check_unit::residues;
use crate::instruction::{Flag, Instruction};
use crate::m31::M31;

verus! {

/// How many of the steps stand at the address `pc`.
pub open spec fn steps_at(steps: Seq<CasmState>, pc: int) -> nat
    decreases steps.len(),
{
    if steps.len() == 0 {
        0
    } else {
        steps_at(steps.drop_last(), pc) + if steps.last().pc@ == pc {
            1nat
        } else {
            0nat
        }
    }
}

/// The steps at an address among a prefix of the steps, one step longer.
pub proof fn lemma_steps_at_step(steps: Seq<CasmState>, i: int, pc: int)
    requires
        0 <= i < steps.len(),
    ensures
        steps_at(steps.take(i + 1), pc) == steps_at(steps.take(i), pc) + if steps[i].pc@ == pc {
            1nat
        } else {
            0nat
        },
{
    assert(steps.take(i + 1).drop_last() =~= steps.take(i));
}

/// No more steps stand at an address than there are steps.
pub proof fn lemma_steps_at_bound(steps: Seq<CasmState>, pc: int)
    ensures
        steps_at(steps, pc) <= steps.len(),
    decreases steps.len(),
{
    if steps.len() > 0 {
        lemma_steps_at_bound(steps.drop_last(), pc);
    }
}

/// A step stands at its own address.
pub proof fn lemma_step_is_counted(steps: Seq<CasmState>, i: int)
    requires
        0 <= i < steps.len(),
    ensures
        steps_at(steps, steps[i].pc@) >= 1,
    decreases steps.len(),
{
    if i < steps.len() - 1 {
        lemma_step_is_counted(steps.drop_last(), i);
    }
}

/// The multiplicities of the instruction table: for each address below
/// `n_addresses`, the number of steps that stand at it.
pub fn multiplicities(steps: &Vec<CasmState>, n_addresses: usize) -> (counts: Vec<u32>)
    requires
        steps@.len() <= u32::MAX,
        forall|i: int| 0 <= i < steps@.len() ==> (#[trigger] steps@[i]).pc@ < n_addresses,
    ensures
        counts@.len() == n_addresses,
        forall|pc: int| 0 <= pc < n_addresses ==> #[trigger] counts@[pc] == steps_at(steps@, pc),
{
    let mut counts: Vec<u32> = vec![0; n_addresses];
    let mut i: usize = 0;
    assert(steps@.take(0) =~= Seq::<CasmState>::empty());
    while i < steps.len()
        invariant
            0 <= i <= steps@.len(),
            steps@.len() <= u32::MAX,
            counts@.len() == n_addresses,
            forall|k: int| 0 <= k < steps@.len() ==> (#[trigger] steps@[k]).pc@ < n_addresses,
            forall|pc: int|
                0 <= pc < n_addresses ==> #[trigger] counts@[pc] == steps_at(
                    steps@.take(i as int),
                    pc,
                ),
        decreases steps@.len() - i,
    {
        let pc: usize = steps[i].pc.value() as usize;
        let count: u32 = counts[pc];
        proof {
            lemma_steps_at_bound(steps@.take(i as int), pc as int);
            assert forall|other: int| 0 <= other < n_addresses implies steps_at(
                steps@.take(i + 1),
                other,
            ) == steps_at(steps@.take(i as int), other) + if other == pc {
                1nat
            } else {
                0nat
            } by {
                lemma_steps_at_step(steps@, i as int, other);
            }
        }
        counts.set(pc, count + 1);
        i = i + 1;
    }
    assert(steps@.take(steps@.len() as int) =~= steps@);
    counts
}

/// The element one where a flag is set, zero where it is not.
fn bit_of(instruction: &Instruction, flag: Flag) -> (r: M31)
    ensures
        r@ == instruction.bit(flag),
{
    if instruction.has(flag) {
        M31::one()
    } else {
        M31::zero()
    }
}

/// The row of the instruction table for the instruction at the address
/// `pc`.
pub fn table_row(instruction: &Instruction, pc: M31) -> (row: Vec<M31>)
    ensures
        residues(row@) == instruction.tuple(pc@),
{
    let mut row: Vec<M31> = Vec::new();
    row.push(pc);
    row.push(M31::from_u32_unchecked(instruction.offset0 as u32));
    row.push(M31::from_u32_unchecked(instruction.offset1 as u32));
    row.push(M31::from_u32_unchecked(instruction.offset2 as u32));
    row.push(bit_of(instruction, Flag::DstBaseFp));
    row.push(bit_of(instruction, Flag::Op0BaseFp));
    row.push(bit_of(instruction, Flag::Op1Imm));
    row.push(bit_of(instruction, Flag::Op1BaseFp));
    row.push(bit_of(instruction, Flag::Op1BaseAp));
    row.push(bit_of(instruction, Flag::ResAdd));
    row.push(bit_of(instruction, Flag::ResMul));
    row.push(bit_of(instruction, Flag::PcUpdateJump));
    row.push(bit_of(instruction, Flag::PcUpdateJumpRel));
    row.push(bit_of(instruction, Flag::PcUpdateJnz));
    row.push(bit_of(instruction, Flag::ApUpdateAdd));
    row.push(bit_of(instruction, Flag::ApUpdateAdd1));
    row.push(bit_of(instruction, Flag::OpcodeCall));
    row.push(bit_of(instruction, Flag::OpcodeRet));
    row.push(bit_of(instruction, Flag::OpcodeAssertEq));
    assert(residues(row@) =~= instruction.tuple(pc@));
    row
}

/// The row of an addition holds the registers' address and the fields of its
/// instruction.
pub open spec fn holds_instruction(row: Seq<M31>, pc: int, instruction: Instruction) -> bool {
    &&& row.len() == N_TRACE_COLUMNS
    &&& row[INPUT_PC as int]@ == pc
    &&& row[OFFSET0 as int]@ == instruction.offset0
    &&& row[OFFSET1 as int]@ == instruction.offset1
    &&& row[DST_BASE_FP as int]@ == instruction.bit(Flag::DstBaseFp)
    &&& row[OP0_BASE_FP as int]@ == instruction.bit(Flag::Op0BaseFp)
    &&& row[AP_UPDATE_ADD_1 as int]@ == instruction.bit(Flag::ApUpdateAdd1)
}

/// What a row of an addition with an immediate looks up in the instruction
/// table is what the table lists for its instruction: the flags that the
/// component fixes are those of every such instruction.
pub proof fn lemma_add_looks_up_its_instruction(row: Seq<M31>, pc: int, instruction: Instruction)
    requires
        instruction.is_add_with_immediate(),
        holds_instruction(row, pc, instruction),
    ensures
        residues(verify_instruction_values(row)) == instruction.tuple(pc),
{
    broadcast use M31::lemma_of;

    assert(residues(verify_instruction_values(row)) =~= instruction.tuple(pc));
}

} // verus!
