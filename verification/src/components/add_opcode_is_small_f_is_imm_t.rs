//! The `add` opcode on 252-bit operands with an immediate second operand:
//! `dst = op0 + op1`, where `op1` is the word after the instruction.
//!
//! A row holds one call: the registers, the instruction's offsets and flags,
//! and each operand as its memory id and its 28 limbs of 9 bits.

use vstd::arithmetic::power2::pow2;
use vstd::prelude::*;

use crate::channel::{ChannelInputValue, Transcript};
use crate::field_like::FieldLike;
use crate::log2::ceil_log2;
use crate::m31::M31;
use crate::relations::{entry_values, LookupElements, Relation, RelationEntry, RelationEntryValue};
use crate::secure_field::{SecureValue, QM31};

verus! {

/// The log of the least number of rows of a component.
pub const LOG_N_LANES: u32 = 4;

/// The number of 9-bit limbs of a 252-bit value.
pub const N_LIMBS: usize = 28;

/// The number of columns of a row.
pub const N_TRACE_COLUMNS: usize = 96;

/// The number of LogUp columns: four coordinates for each of nine lookups.
pub const N_INTERACTION_COLUMNS: usize = 36;

/// The number of constraints on a row, the LogUp constraints apart.
pub const N_CONSTRAINTS: usize = 29;

/// The number of lookups of a row.
pub const N_LOOKUPS: usize = 9;

pub const INPUT_PC: usize = 0;

pub const INPUT_AP: usize = 1;

pub const INPUT_FP: usize = 2;

pub const OFFSET0: usize = 3;

pub const OFFSET1: usize = 4;

pub const DST_BASE_FP: usize = 5;

pub const OP0_BASE_FP: usize = 6;

pub const AP_UPDATE_ADD_1: usize = 7;

pub const DST_ID: usize = 8;

pub const DST_LIMBS: usize = 9;

pub const OP0_ID: usize = 37;

pub const OP0_LIMBS: usize = 38;

pub const OP1_ID: usize = 66;

pub const OP1_LIMBS: usize = 67;

pub const SUB_P_BIT: usize = 95;

/// The bias of an instruction's offsets.
pub const OFFSET_BIAS: u32 = 32768;

/// The inverse of `2^9` in the base field, by which a limb's excess becomes
/// its carry.
pub const CARRY_SCALE: u32 = 4194304;

/// The LogUp sums of a component: the total, and where the last row is not
/// the last call, the sum claimed at a row.
pub type LogupSums = (QM31, Option<(QM31, usize)>);

/// `log_size` is the log of the number of rows for `n_calls` calls: the
/// least, from `LOG_N_LANES` on, whose power of two holds them.
pub open spec fn is_log_size(n_calls: int, log_size: int) -> bool {
    &&& log_size >= LOG_N_LANES
    &&& n_calls <= pow2(log_size as nat)
    &&& log_size > LOG_N_LANES ==> pow2((log_size - 1) as nat) < n_calls
}

/// The log of the number of rows for `n_calls` calls.
pub fn log_size_of(n_calls: usize) -> (log_size: u32)
    ensures
        is_log_size(n_calls as int, log_size as int),
        log_size <= usize::BITS,
{
    let log_calls: u32 = ceil_log2(n_calls);
    if log_calls > LOG_N_LANES {
        log_calls
    } else {
        proof {
            if log_calls < LOG_N_LANES {
                vstd::arithmetic::power2::lemma_pow2_strictly_increases(
                    log_calls as nat,
                    LOG_N_LANES as nat,
                );
            }
        }
        LOG_N_LANES
    }
}

/// The limb `i` of the modulus `2^251 + 17 * 2^192 + 1` of the 252-bit field.
pub open spec fn modulus_limb(i: int) -> int {
    if i == 0 {
        1
    } else if i == 21 {
        136
    } else if i == 27 {
        256
    } else {
        0
    }
}

/// The value that stands for the residue `x`.
pub open spec fn constant<F: FieldLike>(x: int) -> F {
    F::spec_from_m31(x)
}

/// The address of an operand: its base register, `fp` where the flag is set
/// and `ap` where it is not, plus its offset.
pub open spec fn operand_address<F: FieldLike>(row: Seq<F>, base_fp: int, offset: int) -> F {
    row[base_fp].spec_mul(row[INPUT_FP as int]).spec_add(
        constant::<F>(1).spec_sub(row[base_fp]).spec_mul(row[INPUT_AP as int]),
    ).spec_add(row[offset].spec_sub(constant::<F>(OFFSET_BIAS as int)))
}

/// By how much limb `i` of `op0 + op1`, with the carry into it, exceeds limb
/// `i` of `dst`, with the modulus taken off where the sum overflowed.
pub open spec fn limb_excess<F: FieldLike>(row: Seq<F>, i: int, carry_in: F) -> F {
    row[OP0_LIMBS + i].spec_add(row[OP1_LIMBS + i]).spec_add(carry_in).spec_sub(
        row[DST_LIMBS + i],
    ).spec_sub(constant::<F>(modulus_limb(i)).spec_mul(row[SUB_P_BIT as int]))
}

/// The carry out of limb `i`: the limb's excess over `2^9`.
pub open spec fn carry<F: FieldLike>(row: Seq<F>, i: int) -> F
    decreases i,
{
    let carry_in = if i <= 0 {
        constant::<F>(0)
    } else {
        carry(row, i - 1)
    };
    limb_excess(row, i, carry_in).spec_mul(constant::<F>(CARRY_SCALE as int))
}

/// Zero where `bit` is zero or one.
pub open spec fn bit_constraint<F: FieldLike>(bit: F) -> F {
    bit.spec_mul(bit.spec_sub(constant::<F>(1)))
}

/// Zero where `carry` is zero, one or minus one.
pub open spec fn carry_constraint<F: FieldLike>(carry: F) -> F {
    carry.spec_mul(carry.spec_mul(carry).spec_sub(constant::<F>(1)))
}

/// The constraints on a row, each zero on a row of a true addition: that the
/// overflow flag is a bit, that the carry out of each limb but the last is
/// zero, one or minus one, and that the last limb has no excess.
pub open spec fn constraints<F: FieldLike>(row: Seq<F>) -> Seq<F> {
    Seq::new(
        N_CONSTRAINTS as nat,
        |k: int|
            if k == 0 {
                bit_constraint(row[SUB_P_BIT as int])
            } else if k < N_LIMBS {
                carry_constraint(carry(row, k - 1))
            } else {
                limb_excess(row, N_LIMBS - 1, carry(row, N_LIMBS - 2))
            },
    )
}

/// The decoded instruction: its address, the two offsets of `dst` and `op0`,
/// the offset one of `op1`, the base flags of `dst` and `op0`, and the flags
/// of an addition with an immediate whose result is asserted.
pub open spec fn verify_instruction_values<F: FieldLike>(row: Seq<F>) -> Seq<F> {
    seq![
        row[INPUT_PC as int],
        row[OFFSET0 as int],
        row[OFFSET1 as int],
        constant::<F>(32769),
        row[DST_BASE_FP as int],
        row[OP0_BASE_FP as int],
        constant::<F>(1),
        constant::<F>(0),
        constant::<F>(0),
        constant::<F>(1),
        constant::<F>(0),
        constant::<F>(0),
        constant::<F>(0),
        constant::<F>(0),
        constant::<F>(0),
        row[AP_UPDATE_ADD_1 as int],
        constant::<F>(0),
        constant::<F>(0),
        constant::<F>(1),
    ]
}

/// A memory id with the 28 limbs of its value.
pub open spec fn memory_value<F: FieldLike>(row: Seq<F>, id: int, limbs: int) -> Seq<F> {
    seq![row[id]] + row.subrange(limbs, limbs + N_LIMBS)
}

/// The register state after the call: the instruction and its immediate are
/// passed over, `ap` moves where the instruction says so, `fp` stays.
pub open spec fn next_state<F: FieldLike>(row: Seq<F>) -> Seq<F> {
    seq![
        row[INPUT_PC as int].spec_add(constant::<F>(2)),
        row[INPUT_AP as int].spec_add(row[AP_UPDATE_ADD_1 as int]),
        row[INPUT_FP as int],
    ]
}

/// An entry looked up once.
pub open spec fn used<F>(relation: Relation, values: Seq<F>) -> RelationEntryValue<F> {
    RelationEntryValue { relation, multiplicity: 1, values }
}

/// An entry yielded once.
pub open spec fn yielded<F>(relation: Relation, values: Seq<F>) -> RelationEntryValue<F> {
    RelationEntryValue { relation, multiplicity: -1, values }
}

/// The lookups of a row: the instruction, each operand's address and value,
/// and the register state, used before the call and yielded after it.
pub open spec fn lookups<F: FieldLike>(row: Seq<F>) -> Seq<RelationEntryValue<F>> {
    seq![
        used(Relation::VerifyInstruction, verify_instruction_values(row)),
        used(
            Relation::MemoryAddressToId,
            seq![operand_address(row, DST_BASE_FP as int, OFFSET0 as int), row[DST_ID as int]],
        ),
        used(Relation::MemoryIdToBig, memory_value(row, DST_ID as int, DST_LIMBS as int)),
        used(
            Relation::MemoryAddressToId,
            seq![operand_address(row, OP0_BASE_FP as int, OFFSET1 as int), row[OP0_ID as int]],
        ),
        used(Relation::MemoryIdToBig, memory_value(row, OP0_ID as int, OP0_LIMBS as int)),
        used(
            Relation::MemoryAddressToId,
            seq![row[INPUT_PC as int].spec_add(constant::<F>(1)), row[OP1_ID as int]],
        ),
        used(Relation::MemoryIdToBig, memory_value(row, OP1_ID as int, OP1_LIMBS as int)),
        used(
            Relation::Opcodes,
            seq![row[INPUT_PC as int], row[INPUT_AP as int], row[INPUT_FP as int]],
        ),
        yielded(Relation::Opcodes, next_state(row)),
    ]
}

/// A row looks the instruction table up once, first of its lookups, and
/// each lookup has as many values as its relation takes.
pub proof fn lemma_lookups_shape<F: FieldLike>(row: Seq<F>)
    requires
        row.len() == N_TRACE_COLUMNS,
    ensures
        lookups(row).len() == N_LOOKUPS,
        forall|k: int|
            0 <= k < N_LOOKUPS ==> (#[trigger] lookups(row)[k]).values.len() == lookups(
                row,
            )[k].relation.spec_size(),
        forall|k: int|
            0 <= k < N_LOOKUPS ==> ((#[trigger] lookups(row)[k]).relation
                == Relation::VerifyInstruction <==> k == 0),
        lookups(row)[0] == used(Relation::VerifyInstruction, verify_instruction_values(row)),
{
}

/// A number of calls has one log size.
pub proof fn lemma_log_size_unique(n_calls: int, first: int, second: int)
    requires
        is_log_size(n_calls, first),
        is_log_size(n_calls, second),
    ensures
        first == second,
{
    if first < second {
        if first < second - 1 {
            vstd::arithmetic::power2::lemma_pow2_strictly_increases(
                first as nat,
                (second - 1) as nat,
            );
        }
    } else if second < first {
        if second < first - 1 {
            vstd::arithmetic::power2::lemma_pow2_strictly_increases(
                second as nat,
                (first - 1) as nat,
            );
        }
    }
}

/// What a row contributes: the values of its constraints, and its lookups.
#[derive(Debug)]
pub struct Evaluation<F> {
    pub constraints: Vec<F>,
    pub lookups: Vec<RelationEntry<F>>,
}

#[derive(Clone, Copy, Debug)]
pub struct Claim {
    pub n_calls: usize,
}

#[derive(Clone, Copy, Debug)]
pub struct InteractionClaim {
    pub logup_sums: LogupSums,
}

#[derive(Clone, Copy, Debug)]
pub struct Eval {
    pub claim: Claim,
    pub memoryaddresstoid_lookup_elements: LookupElements,
    pub memoryidtobig_lookup_elements: LookupElements,
    pub opcodes_lookup_elements: LookupElements,
    pub verifyinstruction_lookup_elements: LookupElements,
}

impl Claim {
    /// The log sizes of the columns, tree by tree: one preprocessed column,
    /// the columns of the trace, and the LogUp columns.
    pub fn log_sizes(&self) -> (sizes: Vec<Vec<u32>>)
        ensures
            sizes@.len() == 3,
            sizes@[0]@.len() == 1,
            sizes@[1]@.len() == N_TRACE_COLUMNS,
            sizes@[2]@.len() == N_INTERACTION_COLUMNS,
            forall|t: int, i: int|
                0 <= t < 3 && 0 <= i < sizes@[t]@.len() ==> is_log_size(
                    self.n_calls as int,
                    (#[trigger] sizes@[t]@[i]) as int,
                ),
    {
        let log_size: u32 = log_size_of(self.n_calls);
        let trace_log_sizes: Vec<u32> = vec![log_size; N_TRACE_COLUMNS];
        let interaction_log_sizes: Vec<u32> = vec![log_size; N_INTERACTION_COLUMNS];
        let preprocessed_log_sizes: Vec<u32> = vec![log_size; 1];
        let mut sizes: Vec<Vec<u32>> = Vec::new();
        sizes.push(preprocessed_log_sizes);
        sizes.push(trace_log_sizes);
        sizes.push(interaction_log_sizes);
        sizes
    }

    /// Hands the number of calls to the channel.
    pub fn mix_into(&self, channel: &mut Transcript)
        ensures
            final(channel)@ == old(channel)@.push(ChannelInputValue::U64(self.n_calls as u64)),
    {
        channel.mix_u64(self.n_calls as u64);
    }
}

impl InteractionClaim {
    /// The absorptions of an interaction claim: the total sum, and where a
    /// sum is claimed at a row, that sum and then the row.
    pub open spec fn channel_inputs(sums: (SecureValue, Option<(SecureValue, usize)>)) -> Seq<
        ChannelInputValue,
    > {
        match sums.1 {
            Some(claimed) => seq![
                ChannelInputValue::Felts(seq![sums.0]),
                ChannelInputValue::Felts(seq![claimed.0]),
                ChannelInputValue::U64(claimed.1 as u64),
            ],
            None => seq![ChannelInputValue::Felts(seq![sums.0])],
        }
    }

    /// What the LogUp sums hold.
    pub open spec fn sums(&self) -> (SecureValue, Option<(SecureValue, usize)>) {
        (
            self.logup_sums.0@,
            match self.logup_sums.1 {
                Some(claimed) => Some((claimed.0@, claimed.1)),
                None => None,
            },
        )
    }

    /// Hands the LogUp sums to the channel.
    pub fn mix_into(&self, channel: &mut Transcript)
        ensures
            final(channel)@ == old(channel)@ + InteractionClaim::channel_inputs(self.sums()),
    {
        let total_sum: QM31 = self.logup_sums.0;
        let mut felts: Vec<QM31> = Vec::new();
        felts.push(total_sum);
        assert(crate::secure_field::secure_values(felts@) =~= seq![total_sum@]);
        channel.mix_felts(felts);
        match self.logup_sums.1 {
            Some(claimed_sum) => {
                let mut claimed: Vec<QM31> = Vec::new();
                claimed.push(claimed_sum.0);
                assert(crate::secure_field::secure_values(claimed@) =~= seq![claimed_sum.0@]);
                channel.mix_felts(claimed);
                channel.mix_u64(claimed_sum.1 as u64);
                assert(channel@ =~= old(channel)@ + InteractionClaim::channel_inputs(self.sums()));
            },
            None => {
                assert(channel@ =~= old(channel)@ + InteractionClaim::channel_inputs(self.sums()));
            },
        }
    }
}

/// The value that stands for the residue `x`.
fn constant_of<F: FieldLike>(x: u32) -> (r: F)
    requires
        x < crate::m31::P,
    ensures
        r == constant::<F>(x as int),
{
    F::from_m31(M31::from_u32_unchecked(x))
}

/// The address of an operand.
fn address_of<F: FieldLike>(row: &Vec<F>, base_fp: usize, offset: usize) -> (r: F)
    requires
        row@.len() == N_TRACE_COLUMNS,
        base_fp < N_TRACE_COLUMNS,
        offset < N_TRACE_COLUMNS,
    ensures
        r == operand_address(row@, base_fp as int, offset as int),
{
    let one: F = constant_of(1);
    let bias: F = constant_of(OFFSET_BIAS);
    let from_fp: F = row[base_fp].mul(&row[INPUT_FP]);
    let from_ap: F = one.sub(&row[base_fp]).mul(&row[INPUT_AP]);
    from_fp.add(&from_ap).add(&row[offset].sub(&bias))
}

/// The lookup of an operand's memory id at its address.
fn address_entry<F: FieldLike>(address: F, id: F) -> (entry: RelationEntry<F>)
    ensures
        entry@ == used(Relation::MemoryAddressToId, seq![address, id]),
{
    let mut values: Vec<F> = Vec::new();
    values.push(address);
    values.push(id);
    assert(values@ =~= seq![address, id]);
    RelationEntry { relation: Relation::MemoryAddressToId, multiplicity: 1, values }
}

/// The lookup of an operand's limbs at its memory id.
fn value_entry<F: FieldLike>(row: &Vec<F>, id: usize, limbs: usize) -> (entry: RelationEntry<F>)
    requires
        row@.len() == N_TRACE_COLUMNS,
        id < N_TRACE_COLUMNS,
        limbs + N_LIMBS <= N_TRACE_COLUMNS,
    ensures
        entry@ == used(Relation::MemoryIdToBig, memory_value(row@, id as int, limbs as int)),
{
    let mut values: Vec<F> = Vec::new();
    values.push(row[id].duplicate());
    let mut i: usize = 0;
    while i < N_LIMBS
        invariant
            0 <= i <= N_LIMBS,
            row@.len() == N_TRACE_COLUMNS,
            id < N_TRACE_COLUMNS,
            limbs + N_LIMBS <= N_TRACE_COLUMNS,
            values@ == seq![row@[id as int]] + row@.subrange(limbs as int, limbs + i),
        decreases N_LIMBS - i,
    {
        values.push(row[limbs + i].duplicate());
        assert(values@ =~= seq![row@[id as int]] + row@.subrange(limbs as int, limbs + i + 1));
        i = i + 1;
    }
    RelationEntry { relation: Relation::MemoryIdToBig, multiplicity: 1, values }
}

/// The excess of limb `i` with the carry into it.
fn excess_of<F: FieldLike>(row: &Vec<F>, i: usize, carry_in: &F) -> (r: F)
    requires
        row@.len() == N_TRACE_COLUMNS,
        i < N_LIMBS,
    ensures
        r == limb_excess(row@, i as int, *carry_in),
{
    let modulus_limb: u32 = if i == 0 {
        1
    } else if i == 21 {
        136
    } else if i == 27 {
        256
    } else {
        0
    };
    let correction: F = constant_of::<F>(modulus_limb).mul(&row[SUB_P_BIT]);
    row[OP0_LIMBS + i].add(&row[OP1_LIMBS + i]).add(carry_in).sub(&row[DST_LIMBS + i]).sub(
        &correction,
    )
}

impl Eval {
    /// The log of the number of rows.
    pub fn log_size(&self) -> (log_size: u32)
        ensures
            is_log_size(self.claim.n_calls as int, log_size as int),
            log_size <= usize::BITS,
    {
        log_size_of(self.claim.n_calls)
    }

    /// The log of the degree bound of the constraints: one more than the
    /// log of the number of rows.
    pub fn max_constraint_log_degree_bound(&self) -> (bound: u32)
        ensures
            is_log_size(self.claim.n_calls as int, bound - 1),
    {
        self.log_size() + 1
    }

    /// The values of the constraints on a row, and the row's lookups.
    pub fn evaluate<F: FieldLike>(&self, row: &Vec<F>) -> (evaluation: Evaluation<F>)
        requires
            row@.len() == N_TRACE_COLUMNS,
        ensures
            evaluation.constraints@ == constraints(row@),
            entry_values(evaluation.lookups@) == lookups(row@),
    {
        let one: F = constant_of(1);
        let mut entries: Vec<RelationEntry<F>> = Vec::new();

        let mut instruction: Vec<F> = Vec::new();
        instruction.push(row[INPUT_PC].duplicate());
        instruction.push(row[OFFSET0].duplicate());
        instruction.push(row[OFFSET1].duplicate());
        instruction.push(constant_of(32769));
        instruction.push(row[DST_BASE_FP].duplicate());
        instruction.push(row[OP0_BASE_FP].duplicate());
        instruction.push(constant_of(1));
        instruction.push(constant_of(0));
        instruction.push(constant_of(0));
        instruction.push(constant_of(1));
        instruction.push(constant_of(0));
        instruction.push(constant_of(0));
        instruction.push(constant_of(0));
        instruction.push(constant_of(0));
        instruction.push(constant_of(0));
        instruction.push(row[AP_UPDATE_ADD_1].duplicate());
        instruction.push(constant_of(0));
        instruction.push(constant_of(0));
        instruction.push(constant_of(1));
        assert(instruction@ =~= verify_instruction_values(row@));
        entries.push(
            RelationEntry {
                relation: Relation::VerifyInstruction,
                multiplicity: 1,
                values: instruction,
            },
        );

        entries.push(
            address_entry(address_of(row, DST_BASE_FP, OFFSET0), row[DST_ID].duplicate()),
        );
        entries.push(value_entry(row, DST_ID, DST_LIMBS));
        entries.push(
            address_entry(address_of(row, OP0_BASE_FP, OFFSET1), row[OP0_ID].duplicate()),
        );
        entries.push(value_entry(row, OP0_ID, OP0_LIMBS));
        entries.push(address_entry(row[INPUT_PC].add(&one), row[OP1_ID].duplicate()));
        entries.push(value_entry(row, OP1_ID, OP1_LIMBS));

        let mut values: Vec<F> = Vec::new();
        values.push(row[SUB_P_BIT].mul(&row[SUB_P_BIT].sub(&one)));
        let scale: F = constant_of(CARRY_SCALE);
        let mut carry_in: F = constant_of(0);
        let mut i: usize = 0;
        while i < N_LIMBS - 1
            invariant
                0 <= i <= N_LIMBS - 1,
                row@.len() == N_TRACE_COLUMNS,
                one == constant::<F>(1),
                scale == constant::<F>(CARRY_SCALE as int),
                carry_in == if i == 0 {
                    constant::<F>(0)
                } else {
                    carry(row@, i - 1)
                },
                values@.len() == i + 1,
                forall|k: int| 0 <= k <= i ==> values@[k] == constraints(row@)[k],
            decreases N_LIMBS - 1 - i,
        {
            let carry_out: F = excess_of(row, i, &carry_in).mul(&scale);
            assert(carry_out == carry(row@, i as int));
            values.push(carry_out.mul(&carry_out.mul(&carry_out).sub(&one)));
            carry_in = carry_out;
            i = i + 1;
        }
        values.push(excess_of(row, N_LIMBS - 1, &carry_in));
        assert(values@ =~= constraints(row@));

        let mut state: Vec<F> = Vec::new();
        state.push(row[INPUT_PC].duplicate());
        state.push(row[INPUT_AP].duplicate());
        state.push(row[INPUT_FP].duplicate());
        assert(state@ =~= seq![row@[INPUT_PC as int], row@[INPUT_AP as int], row@[INPUT_FP as int]]);
        entries.push(RelationEntry { relation: Relation::Opcodes, multiplicity: 1, values: state });

        let mut next: Vec<F> = Vec::new();
        next.push(row[INPUT_PC].add(&constant_of(2)));
        next.push(row[INPUT_AP].add(&row[AP_UPDATE_ADD_1]));
        next.push(row[INPUT_FP].duplicate());
        assert(next@ =~= next_state(row@));
        entries.push(RelationEntry { relation: Relation::Opcodes, multiplicity: -1, values: next });

        assert(entry_values(entries@) =~= lookups(row@));
        Evaluation { constraints: values, lookups: entries }
    }
}

} // verus!
