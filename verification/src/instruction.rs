//! The encoding of an instruction of the Cairo machine: three offsets of 16
//! bits, biased by `2^15`, and a word of fifteen flags above them.

use vstd::arithmetic::div_mod::{
    lemma_div_denominator, lemma_fundamental_div_mod, lemma_fundamental_div_mod_converse,
};
use vstd::prelude::*;

verus! {

/// The bound of an encoded instruction, `2^63`.
pub const ENCODING_BOUND: u64 = 0x8000_0000_0000_0000;

/// The bound of a flag word, `2^15`.
pub const FLAGS_BOUND: u16 = 0x8000;

/// The offset one, biased: that of an operand in the word after the
/// instruction.
pub const IMMEDIATE_OFFSET: u16 = 32769;

/// A flag of an instruction, by its place in the flag word.
#[derive(Clone, Copy, Debug, PartialEq, Eq, Structural)]
pub enum Flag {
    DstBaseFp,
    Op0BaseFp,
    Op1Imm,
    Op1BaseFp,
    Op1BaseAp,
    ResAdd,
    ResMul,
    PcUpdateJump,
    PcUpdateJumpRel,
    PcUpdateJnz,
    ApUpdateAdd,
    ApUpdateAdd1,
    OpcodeCall,
    OpcodeRet,
    OpcodeAssertEq,
}

impl Flag {
    /// The weight of the flag's bit in the flag word.
    pub open spec fn spec_weight(self) -> u16 {
        match self {
            Flag::DstBaseFp => 1,
            Flag::Op0BaseFp => 2,
            Flag::Op1Imm => 4,
            Flag::Op1BaseFp => 8,
            Flag::Op1BaseAp => 16,
            Flag::ResAdd => 32,
            Flag::ResMul => 64,
            Flag::PcUpdateJump => 128,
            Flag::PcUpdateJumpRel => 256,
            Flag::PcUpdateJnz => 512,
            Flag::ApUpdateAdd => 1024,
            Flag::ApUpdateAdd1 => 2048,
            Flag::OpcodeCall => 4096,
            Flag::OpcodeRet => 8192,
            Flag::OpcodeAssertEq => 16384,
        }
    }

    #[verifier::when_used_as_spec(spec_weight)]
    pub fn weight(self) -> (w: u16)
        ensures
            w == self.spec_weight(),
    {
        match self {
            Flag::DstBaseFp => 1,
            Flag::Op0BaseFp => 2,
            Flag::Op1Imm => 4,
            Flag::Op1BaseFp => 8,
            Flag::Op1BaseAp => 16,
            Flag::ResAdd => 32,
            Flag::ResMul => 64,
            Flag::PcUpdateJump => 128,
            Flag::PcUpdateJumpRel => 256,
            Flag::PcUpdateJnz => 512,
            Flag::ApUpdateAdd => 1024,
            Flag::ApUpdateAdd1 => 2048,
            Flag::OpcodeCall => 4096,
            Flag::OpcodeRet => 8192,
            Flag::OpcodeAssertEq => 16384,
        }
    }
}

/// A decoded instruction: its offsets, biased, and its flag word.
#[derive(Clone, Copy, Debug, PartialEq, Eq, Structural)]
pub struct Instruction {
    pub offset0: u16,
    pub offset1: u16,
    pub offset2: u16,
    pub flags: u16,
}

impl Instruction {
    /// The flag word has fifteen bits.
    pub open spec fn wf(self) -> bool {
        self.flags < FLAGS_BOUND
    }

    /// Whether a flag is set.
    pub open spec fn spec_has(self, flag: Flag) -> bool {
        self.flags / flag.spec_weight() % 2 == 1
    }

    /// The number that encodes the instruction.
    pub open spec fn encoding(self) -> int {
        self.offset0 + 0x1_0000 * self.offset1 + 0x1_0000_0000 * self.offset2
            + 0x1_0000_0000_0000 * self.flags
    }

    /// The instruction that a number below `2^63` encodes.
    pub open spec fn decoded(encoded: int) -> Instruction {
        Instruction {
            offset0: (encoded % 0x1_0000) as u16,
            offset1: (encoded / 0x1_0000 % 0x1_0000) as u16,
            offset2: (encoded / 0x1_0000_0000 % 0x1_0000) as u16,
            flags: (encoded / 0x1_0000_0000_0000) as u16,
        }
    }

    /// One where a flag is set, zero where it is not.
    pub open spec fn bit(self, flag: Flag) -> int {
        if self.spec_has(flag) {
            1
        } else {
            0
        }
    }

    /// The instruction at the address `pc` as the instruction table lists
    /// it: the address, the three offsets and the fifteen flags.
    pub open spec fn tuple(self, pc: int) -> Seq<int> {
        seq![
            pc,
            self.offset0 as int,
            self.offset1 as int,
            self.offset2 as int,
            self.bit(Flag::DstBaseFp),
            self.bit(Flag::Op0BaseFp),
            self.bit(Flag::Op1Imm),
            self.bit(Flag::Op1BaseFp),
            self.bit(Flag::Op1BaseAp),
            self.bit(Flag::ResAdd),
            self.bit(Flag::ResMul),
            self.bit(Flag::PcUpdateJump),
            self.bit(Flag::PcUpdateJumpRel),
            self.bit(Flag::PcUpdateJnz),
            self.bit(Flag::ApUpdateAdd),
            self.bit(Flag::ApUpdateAdd1),
            self.bit(Flag::OpcodeCall),
            self.bit(Flag::OpcodeRet),
            self.bit(Flag::OpcodeAssertEq),
        ]
    }

    /// The instruction is an addition whose second operand is the word after
    /// it and whose result is asserted: `dst = op0 + imm`.
    pub open spec fn is_add_with_immediate(self) -> bool {
        &&& self.offset2 == IMMEDIATE_OFFSET
        &&& self.spec_has(Flag::Op1Imm)
        &&& !self.spec_has(Flag::Op1BaseFp)
        &&& !self.spec_has(Flag::Op1BaseAp)
        &&& self.spec_has(Flag::ResAdd)
        &&& !self.spec_has(Flag::ResMul)
        &&& !self.spec_has(Flag::PcUpdateJump)
        &&& !self.spec_has(Flag::PcUpdateJumpRel)
        &&& !self.spec_has(Flag::PcUpdateJnz)
        &&& !self.spec_has(Flag::ApUpdateAdd)
        &&& !self.spec_has(Flag::OpcodeCall)
        &&& !self.spec_has(Flag::OpcodeRet)
        &&& self.spec_has(Flag::OpcodeAssertEq)
    }

    /// Whether a flag is set.
    #[verifier::when_used_as_spec(spec_has)]
    pub fn has(self, flag: Flag) -> (r: bool)
        ensures
            r == self.spec_has(flag),
    {
        self.flags / flag.weight() % 2 == 1
    }

    /// The instruction that a number encodes, where it is below `2^63`.
    pub fn decode(encoded: u64) -> (r: Option<Instruction>)
        ensures
            r is Some <==> encoded < ENCODING_BOUND,
            r matches Some(instruction) ==> instruction == Instruction::decoded(encoded as int)
                && instruction.wf(),
    {
        if encoded >= ENCODING_BOUND {
            return None;
        }
        Some(
            Instruction {
                offset0: (encoded % 0x1_0000) as u16,
                offset1: (encoded / 0x1_0000 % 0x1_0000) as u16,
                offset2: (encoded / 0x1_0000_0000 % 0x1_0000) as u16,
                flags: (encoded / 0x1_0000_0000_0000) as u16,
            },
        )
    }

    /// The number that encodes the instruction.
    pub fn encode(&self) -> (encoded: u64)
        requires
            self.wf(),
        ensures
            encoded == self.encoding(),
            encoded < ENCODING_BOUND,
    {
        (self.offset0 as u64) + 0x1_0000 * (self.offset1 as u64) + 0x1_0000_0000 * (
        self.offset2 as u64) + 0x1_0000_0000_0000 * (self.flags as u64)
    }

    /// Whether the instruction is an addition with an immediate.
    pub fn is_add_imm(&self) -> (r: bool)
        ensures
            r == self.is_add_with_immediate(),
    {
        self.offset2 == IMMEDIATE_OFFSET && self.has(Flag::Op1Imm) && !self.has(Flag::Op1BaseFp)
            && !self.has(Flag::Op1BaseAp) && self.has(Flag::ResAdd) && !self.has(Flag::ResMul)
            && !self.has(Flag::PcUpdateJump) && !self.has(Flag::PcUpdateJumpRel) && !self.has(
            Flag::PcUpdateJnz,
        ) && !self.has(Flag::ApUpdateAdd) && !self.has(Flag::OpcodeCall) && !self.has(
            Flag::OpcodeRet,
        ) && self.has(Flag::OpcodeAssertEq)
    }

    /// An instruction that is encoded and decoded again is the same
    /// instruction.
    pub proof fn lemma_decode_encode(self)
        requires
            self.wf(),
        ensures
            0 <= self.encoding() < ENCODING_BOUND,
            Instruction::decoded(self.encoding()) == self,
    {
        let e = self.encoding();
        let o0 = self.offset0 as int;
        let o1 = self.offset1 as int;
        let o2 = self.offset2 as int;
        let f = self.flags as int;
        let above0 = o1 + 0x1_0000 * o2 + 0x1_0000_0000 * f;
        let above1 = o2 + 0x1_0000 * f;
        lemma_fundamental_div_mod_converse(e, 0x1_0000, above0, o0);
        lemma_fundamental_div_mod_converse(above0, 0x1_0000, above1, o1);
        lemma_fundamental_div_mod_converse(e, 0x1_0000_0000, above1, o0 + 0x1_0000 * o1);
        lemma_fundamental_div_mod_converse(above1, 0x1_0000, f, o2);
        lemma_fundamental_div_mod_converse(
            e,
            0x1_0000_0000_0000,
            f,
            o0 + 0x1_0000 * o1 + 0x1_0000_0000 * o2,
        );
    }

    /// A number below `2^63` that is decoded and encoded again is the same
    /// number.
    pub proof fn lemma_encode_decode(encoded: int)
        requires
            0 <= encoded < ENCODING_BOUND,
        ensures
            Instruction::decoded(encoded).wf(),
            Instruction::decoded(encoded).encoding() == encoded,
    {
        let e1 = encoded / 0x1_0000;
        let e2 = e1 / 0x1_0000;
        let e3 = e2 / 0x1_0000;
        lemma_fundamental_div_mod(encoded, 0x1_0000);
        lemma_fundamental_div_mod(e1, 0x1_0000);
        lemma_fundamental_div_mod(e2, 0x1_0000);
        lemma_div_denominator(encoded, 0x1_0000, 0x1_0000);
        lemma_div_denominator(e1, 0x1_0000, 0x1_0000);
        lemma_div_denominator(encoded, 0x1_0000, 0x1_0000_0000);
        assert(encoded / 0x1_0000_0000 == e2);
        assert(encoded / 0x1_0000_0000_0000 == e3);
        assert(0 <= e3 < 0x8000);
    }
}

} // verus!
