use stwo_cairo::adapter::{
    adapt_finished_runner, CasmState, FinishedRun, MemorySegment, NamedSegment, TraceEntry,
    VmImportError,
};
use stwo_cairo::instruction::{Flag, Instruction, ENCODING_BOUND, IMMEDIATE_OFFSET};
use stwo_cairo::felt252::{Felt252, LIMB_BITS, LIMB_BOUND, N_LIMBS, N_WORDS};
use stwo_cairo::memory::{Memory, MemoryValue, BIG_ID_FLAG};

fn small(v: u32) -> Option<Felt252> {
    Some(Felt252::from_u32(v))
}

fn big(low: u32, high: u32) -> Option<Felt252> {
    Some(Felt252 { words: [low, 0, 0, 0, 0, 0, 0, high] })
}

fn limbs_value(limbs: &[u32]) -> Vec<u32> {
    // The words of the number whose 9-bit limbs are given.
    let mut words = vec![0u32; 8];
    for (i, limb) in limbs.iter().enumerate() {
        for bit in 0..9 {
            if (limb >> bit) & 1 == 1 {
                let position = 9 * i + bit;
                words[position / 32] |= 1 << (position % 32);
            }
        }
    }
    words
}

#[test]
fn sizes_of_a_value() {
    assert_eq!(N_WORDS, 8);
    assert_eq!(N_LIMBS, 28);
    assert_eq!(LIMB_BITS, 9);
    assert_eq!(LIMB_BOUND, 512);
    assert_eq!(BIG_ID_FLAG, 1 << 31);
}

#[test]
fn values_below_the_limb_bound_are_small() {
    assert!(Felt252::from_u32(0).is_small());
    assert!(Felt252::from_u32(1).is_small());
    assert!(Felt252::from_u32(511).is_small());
    assert!(!Felt252::from_u32(512).is_small());
    assert!(!Felt252::from_u32(513).is_small());
    assert!(!Felt252::from_u32(u32::MAX).is_small());
    for word in 1..8 {
        let mut words = [0u32; 8];
        words[word] = 1;
        assert!(!Felt252 { words }.is_small());
        words[0] = 5;
        assert!(!Felt252 { words }.is_small());
    }
}

#[test]
fn words_from_little_endian_bytes() {
    let mut bytes = [0u8; 32];
    for (i, byte) in bytes.iter_mut().enumerate() {
        *byte = i as u8 + 1;
    }
    let value = Felt252::from_bytes_le(&bytes);
    assert_eq!(value.words[0], 0x04030201);
    assert_eq!(value.words[1], 0x08070605);
    assert_eq!(value.words[7], 0x201f1e1d);
    let mut one = [0u8; 32];
    one[0] = 1;
    assert!(Felt252::from_bytes_le(&one).same(&Felt252::from_u32(1)));
}

#[test]
fn same_compares_words() {
    let x = Felt252 { words: [1, 2, 3, 4, 5, 6, 7, 8] };
    let mut y = x;
    assert!(x.same(&y));
    y.words[7] = 9;
    assert!(!x.same(&y));
}

#[test]
fn limbs_of_small_values() {
    let mut expected = vec![0u32; 28];
    assert_eq!(Felt252::from_u32(0).to_limbs(), expected);
    expected[0] = 511;
    assert_eq!(Felt252::from_u32(511).to_limbs(), expected);
    expected[0] = 0;
    expected[1] = 1;
    assert_eq!(Felt252::from_u32(512).to_limbs(), expected);
    expected[0] = 511;
    expected[1] = 511;
    expected[2] = 511;
    expected[3] = 31;
    assert_eq!(Felt252::from_u32(u32::MAX).to_limbs(), expected);
}

#[test]
fn limbs_of_the_largest_element() {
    // The modulus less one: 2^251 + 17 * 2^192.
    let value = Felt252 { words: [0, 0, 0, 0, 0, 0, 17, 0x0800_0000] };
    let limbs = value.to_limbs();
    let mut expected = vec![0u32; 28];
    expected[21] = 136;
    expected[27] = 256;
    assert_eq!(limbs, expected);
}

#[test]
fn limbs_stand_for_the_value() {
    let value = Felt252 {
        words: [0xdeadbeef, 0x01234567, 0x89abcdef, 0xffffffff, 0, 0x80000001, 0x7654321, 0x07ffffff],
    };
    let limbs = value.to_limbs();
    assert_eq!(limbs.len(), 28);
    assert!(limbs.iter().all(|limb| *limb < 512));
    assert_eq!(limbs_value(&limbs), value.words.to_vec());
}

#[test]
fn memory_holds_each_value_once() {
    let cells = vec![
        small(7),
        None,
        big(1, 2),
        small(511),
        small(7),
        small(512),
        big(1, 2),
        big(1, 3),
        small(0),
        small(512),
    ];
    let memory = Memory::from_relocated(&cells).unwrap();
    assert_eq!(memory.small_values, vec![7, 511, 0]);
    assert_eq!(memory.big_values.len(), 3);
    assert!(memory.big_values[0].same(&big(1, 2).unwrap()));
    assert!(memory.big_values[1].same(&Felt252::from_u32(512)));
    assert!(memory.big_values[2].same(&big(1, 3).unwrap()));
    let flag = BIG_ID_FLAG;
    assert_eq!(
        memory.address_to_id,
        vec![
            Some(0),
            None,
            Some(flag),
            Some(1),
            Some(0),
            Some(flag + 1),
            Some(flag),
            Some(flag + 2),
            Some(2),
            Some(flag + 1),
        ]
    );
}

#[test]
fn boundary_of_small_and_big() {
    let cells = vec![small(511), small(512)];
    let memory = Memory::from_relocated(&cells).unwrap();
    assert_eq!(memory.address_to_id, vec![Some(0), Some(BIG_ID_FLAG)]);
    assert!(matches!(memory.get(0), Some(MemoryValue::Small(511))));
    match memory.get(1) {
        Some(MemoryValue::Big(v)) => assert!(v.same(&Felt252::from_u32(512))),
        other => panic!("unexpected value {:?}", other),
    }
}

#[test]
fn memory_lookups() {
    let cells = vec![small(7), None, big(1, 2)];
    let memory = Memory::from_relocated(&cells).unwrap();
    assert_eq!(memory.id_at(0), Some(0));
    assert_eq!(memory.id_at(1), None);
    assert_eq!(memory.id_at(2), Some(BIG_ID_FLAG));
    assert_eq!(memory.id_at(3), None);
    assert_eq!(memory.id_at(u64::MAX), None);
    assert!(matches!(memory.value_of(0), Some(MemoryValue::Small(7))));
    assert!(memory.value_of(1).is_none());
    assert!(matches!(memory.value_of(BIG_ID_FLAG), Some(MemoryValue::Big(_))));
    assert!(memory.value_of(BIG_ID_FLAG + 1).is_none());
    assert!(memory.get(1).is_none());
    assert!(memory.get(3).is_none());
}

#[test]
fn every_id_is_referenced_and_every_reference_has_a_value() {
    let cells = vec![small(3), big(9, 9), small(3), None, big(9, 9), small(4), big(8, 1)];
    let memory = Memory::from_relocated(&cells).unwrap();
    let mut referenced: Vec<u32> = memory.address_to_id.iter().flatten().copied().collect();
    referenced.sort();
    referenced.dedup();
    let mut ids: Vec<u32> = (0..memory.small_values.len() as u32).collect();
    ids.extend((0..memory.big_values.len() as u32).map(|i| BIG_ID_FLAG + i));
    assert_eq!(referenced, ids);
}

#[test]
fn adapting_twice_gives_the_same_memory() {
    let cells = vec![small(3), big(9, 9), small(3), None, big(9, 9), small(4), big(8, 1)];
    let first = Memory::from_relocated(&cells).unwrap();
    let second = Memory::from_relocated(&cells).unwrap();
    assert_eq!(first.address_to_id, second.address_to_id);
    assert_eq!(first.small_values, second.small_values);
    assert_eq!(first.big_values.len(), second.big_values.len());
    for (x, y) in first.big_values.iter().zip(second.big_values.iter()) {
        assert!(x.same(y));
    }
}

fn add_instruction(offset0: i32, offset1: i32, flags: u16) -> Instruction {
    Instruction {
        offset0: (offset0 + 32768) as u16,
        offset1: (offset1 + 32768) as u16,
        offset2: 32769,
        flags: 4 + 32 + 16384 + flags,
    }
}

fn ret_instruction() -> Instruction {
    // jmp abs [fp - 1]; fp = [fp - 2].
    Instruction { offset0: 32766, offset1: 32767, offset2: 32767, flags: 1 + 2 + 8 + 128 + 8192 }
}

fn word(instruction: &Instruction) -> Option<Felt252> {
    Some(Felt252::from_u64(instruction.encode()))
}

/// A run of `[fp - 3] = [fp - 4] + 7` and a `ret`, and the state after them.
fn finished_run() -> FinishedRun {
    FinishedRun {
        relocated_memory: vec![
            None,
            word(&add_instruction(-3, -4, 3)),
            small(7),
            word(&ret_instruction()),
            small(5),
            small(12),
            big(2, 2),
            small(5),
            None,
        ],
        relocated_trace: Some(vec![
            TraceEntry { pc: 1, ap: 8, fp: 8 },
            TraceEntry { pc: 3, ap: 8, fp: 8 },
            TraceEntry { pc: 7, ap: 8, fp: 6 },
        ]),
        public_memory_addresses: vec![1, 2, 3],
        memory_segments: vec![NamedSegment {
            name: "program".to_string(),
            segment: MemorySegment { begin_addr: 1, stop_ptr: 4 },
        }],
    }
}

fn registers(states: &[CasmState]) -> Vec<(u32, u32, u32)> {
    states.iter().map(|s| (s.pc.value(), s.ap.value(), s.fp.value())).collect()
}

#[test]
fn adapt_a_finished_run() {
    let input = adapt_finished_runner(finished_run()).unwrap();
    let flag = BIG_ID_FLAG;
    assert_eq!(
        input.memory.address_to_id,
        vec![
            None,
            Some(flag),
            Some(0),
            Some(flag + 1),
            Some(1),
            Some(2),
            Some(flag + 2),
            Some(1),
            None
        ]
    );
    assert_eq!(input.memory.small_values, vec![7, 5, 12]);
    let transitions = &input.state_transitions;
    assert_eq!(registers(&[transitions.initial_state.unwrap()]), vec![(1, 8, 8)]);
    assert_eq!(registers(&[transitions.final_state.unwrap()]), vec![(7, 8, 6)]);
    let buckets = &transitions.casm_states_by_opcode;
    assert_eq!(registers(&buckets.add_opcode_is_small_f_is_imm_t), vec![(1, 8, 8)]);
    assert_eq!(registers(&buckets.generic_opcode), vec![(3, 8, 8)]);
    assert_eq!(input.public_memory_addresses, vec![1, 2, 3]);
    assert_eq!(input.memory_segments.len(), 1);
    assert_eq!(input.memory_segments[0].name, "program");
    assert_eq!(input.memory_segments[0].segment, MemorySegment { begin_addr: 1, stop_ptr: 4 });
}

#[test]
fn a_single_add_makes_one_call() {
    let input = adapt_finished_runner(finished_run()).unwrap();
    let n_calls = input.state_transitions.casm_states_by_opcode.add_opcode_is_small_f_is_imm_t.len();
    assert_eq!(n_calls, 1);
}

#[test]
fn a_program_of_a_ret_alone_has_no_add() {
    let run = FinishedRun {
        relocated_memory: vec![None, word(&ret_instruction()), small(0), small(0)],
        relocated_trace: Some(vec![
            TraceEntry { pc: 1, ap: 4, fp: 4 },
            TraceEntry { pc: 0, ap: 4, fp: 0 },
        ]),
        public_memory_addresses: vec![1],
        memory_segments: vec![],
    };
    let input = adapt_finished_runner(run).unwrap();
    let buckets = &input.state_transitions.casm_states_by_opcode;
    assert!(buckets.add_opcode_is_small_f_is_imm_t.is_empty());
    assert_eq!(registers(&buckets.generic_opcode), vec![(1, 4, 4)]);
}

#[test]
fn steps_keep_the_order_of_the_trace() {
    let mut run = finished_run();
    run.relocated_trace = Some(vec![
        TraceEntry { pc: 1, ap: 8, fp: 8 },
        TraceEntry { pc: 3, ap: 8, fp: 8 },
        TraceEntry { pc: 1, ap: 9, fp: 8 },
        TraceEntry { pc: 1, ap: 10, fp: 8 },
        TraceEntry { pc: 3, ap: 11, fp: 8 },
        TraceEntry { pc: 0, ap: 0, fp: 0 },
    ]);
    let input = adapt_finished_runner(run).unwrap();
    let buckets = &input.state_transitions.casm_states_by_opcode;
    assert_eq!(
        registers(&buckets.add_opcode_is_small_f_is_imm_t),
        vec![(1, 8, 8), (1, 9, 8), (1, 10, 8)]
    );
    assert_eq!(registers(&buckets.generic_opcode), vec![(3, 8, 8), (3, 11, 8)]);
}

#[test]
fn an_empty_trace_has_no_states() {
    let mut run = finished_run();
    run.relocated_trace = Some(vec![]);
    let input = adapt_finished_runner(run).unwrap();
    assert!(input.state_transitions.initial_state.is_none());
    assert!(input.state_transitions.final_state.is_none());
    assert!(input.state_transitions.casm_states_by_opcode.generic_opcode.is_empty());
}

#[test]
fn a_step_without_instruction_is_refused() {
    let mut run = finished_run();
    run.relocated_trace = Some(vec![
        TraceEntry { pc: 0, ap: 8, fp: 8 },
        TraceEntry { pc: 3, ap: 8, fp: 8 },
    ]);
    assert_eq!(adapt_finished_runner(run).err(), Some(VmImportError::UnknownOpcode));
    let mut run = finished_run();
    run.relocated_trace = Some(vec![
        TraceEntry { pc: 100, ap: 8, fp: 8 },
        TraceEntry { pc: 3, ap: 8, fp: 8 },
    ]);
    assert_eq!(adapt_finished_runner(run).err(), Some(VmImportError::UnknownOpcode));
}

#[test]
fn a_word_of_64_bits_is_no_instruction() {
    let mut run = finished_run();
    run.relocated_memory[1] = Some(Felt252::from_u64(1 << 63));
    assert_eq!(adapt_finished_runner(run).err(), Some(VmImportError::UnknownOpcode));
    let mut run = finished_run();
    run.relocated_memory[1] = big(0, 1);
    assert_eq!(adapt_finished_runner(run).err(), Some(VmImportError::UnknownOpcode));
}

#[test]
fn the_final_state_is_no_step() {
    let mut run = finished_run();
    run.relocated_trace = Some(vec![
        TraceEntry { pc: 1, ap: 8, fp: 8 },
        TraceEntry { pc: 0, ap: 8, fp: 8 },
    ]);
    let input = adapt_finished_runner(run).unwrap();
    assert_eq!(input.state_transitions.casm_states_by_opcode.add_opcode_is_small_f_is_imm_t.len(), 1);
    assert_eq!(registers(&[input.state_transitions.final_state.unwrap()]), vec![(0, 8, 8)]);
}

#[test]
fn a_run_without_relocated_trace_is_refused() {
    let mut run = finished_run();
    run.relocated_trace = None;
    run.public_memory_addresses = vec![0];
    assert_eq!(adapt_finished_runner(run).err(), Some(VmImportError::TraceNotRelocated));
}

#[test]
fn a_register_outside_the_field_is_refused() {
    let mut run = finished_run();
    run.relocated_trace = Some(vec![TraceEntry { pc: 1, ap: 2147483647, fp: 3 }]);
    assert_eq!(adapt_finished_runner(run).err(), Some(VmImportError::MemoryInconsistency));
    let mut run = finished_run();
    run.relocated_trace = Some(vec![TraceEntry { pc: 1, ap: 2147483646, fp: 3 }]);
    assert!(adapt_finished_runner(run).is_ok());
    let mut run = finished_run();
    run.relocated_trace = Some(vec![TraceEntry { pc: 100, ap: 2147483647, fp: 3 }]);
    run.public_memory_addresses = vec![0];
    assert_eq!(adapt_finished_runner(run).err(), Some(VmImportError::MemoryInconsistency));
}

#[test]
fn a_public_address_without_value_is_refused() {
    let mut run = finished_run();
    run.public_memory_addresses = vec![1, 0];
    assert_eq!(adapt_finished_runner(run).err(), Some(VmImportError::PublicInputMismatch));
    let mut run = finished_run();
    run.public_memory_addresses = vec![9];
    assert_eq!(adapt_finished_runner(run).err(), Some(VmImportError::PublicInputMismatch));
    let mut run = finished_run();
    run.public_memory_addresses = vec![8];
    run.relocated_trace = Some(vec![TraceEntry { pc: 0, ap: 0, fp: 0 }; 2]);
    assert_eq!(adapt_finished_runner(run).err(), Some(VmImportError::PublicInputMismatch));
}

#[test]
fn vm_import_errors_are_distinct() {
    let errors = [
        VmImportError::UnknownOpcode,
        VmImportError::TraceNotRelocated,
        VmImportError::MemoryInconsistency,
        VmImportError::PublicInputMismatch,
    ];
    for (i, x) in errors.iter().enumerate() {
        for (j, y) in errors.iter().enumerate() {
            assert_eq!(x == y, i == j);
        }
    }
}

#[test]
fn instruction_encoding() {
    let instruction = Instruction { offset0: 1, offset1: 2, offset2: 3, flags: 5 };
    assert_eq!(instruction.encode(), 1 + (2 << 16) + (3 << 32) + (5 << 48));
    assert_eq!(Instruction::decode(instruction.encode()), Some(instruction));
    assert_eq!(ENCODING_BOUND, 1 << 63);
    assert_eq!(Instruction::decode(ENCODING_BOUND), None);
    assert_eq!(Instruction::decode(u64::MAX), None);
    assert_eq!(
        Instruction::decode(ENCODING_BOUND - 1),
        Some(Instruction { offset0: 65535, offset1: 65535, offset2: 65535, flags: 32767 })
    );
    assert_eq!(
        Instruction::decode(0),
        Some(Instruction { offset0: 0, offset1: 0, offset2: 0, flags: 0 })
    );
}

#[test]
fn decode_a_known_instruction() {
    // [ap] = [fp - 3] + 5, ap++ is 0x480680017fff8000 with another immediate layout;
    // here: [fp - 3] = [fp - 4] + imm.
    let encoded: u64 = 0x4027_8001_7ffc_7ffd;
    let instruction = Instruction::decode(encoded).unwrap();
    assert_eq!(instruction.offset0, 0x7ffd);
    assert_eq!(instruction.offset1, 0x7ffc);
    assert_eq!(instruction.offset2, IMMEDIATE_OFFSET);
    assert_eq!(instruction.flags, 0x4027);
    assert!(instruction.has(Flag::DstBaseFp));
    assert!(instruction.has(Flag::Op0BaseFp));
    assert!(instruction.has(Flag::Op1Imm));
    assert!(!instruction.has(Flag::Op1BaseFp));
    assert!(!instruction.has(Flag::Op1BaseAp));
    assert!(instruction.has(Flag::ResAdd));
    assert!(!instruction.has(Flag::ResMul));
    assert!(!instruction.has(Flag::PcUpdateJump));
    assert!(!instruction.has(Flag::PcUpdateJumpRel));
    assert!(!instruction.has(Flag::PcUpdateJnz));
    assert!(!instruction.has(Flag::ApUpdateAdd));
    assert!(!instruction.has(Flag::ApUpdateAdd1));
    assert!(!instruction.has(Flag::OpcodeCall));
    assert!(!instruction.has(Flag::OpcodeRet));
    assert!(instruction.has(Flag::OpcodeAssertEq));
    assert!(instruction.is_add_imm());
    assert_eq!(instruction.encode(), encoded);
}

#[test]
fn additions_with_an_immediate() {
    for flags in [0u16, 1, 2, 3, 2048, 2051] {
        assert!(add_instruction(-1, -2, flags).is_add_imm(), "flags {}", flags);
    }
    assert!(!ret_instruction().is_add_imm());
    let mut not_immediate = add_instruction(0, 0, 0);
    not_immediate.offset2 = 32768;
    assert!(!not_immediate.is_add_imm());
    for extra in [8u16, 16, 64, 128, 256, 512, 1024, 4096, 8192] {
        assert!(!add_instruction(0, 0, extra).is_add_imm(), "flag {}", extra);
    }
    for missing in [4u16, 32, 16384] {
        let mut instruction = add_instruction(0, 0, 0);
        instruction.flags -= missing;
        assert!(!instruction.is_add_imm(), "flag {}", missing);
    }
}

#[test]
fn flag_weights() {
    let flags = [
        Flag::DstBaseFp,
        Flag::Op0BaseFp,
        Flag::Op1Imm,
        Flag::Op1BaseFp,
        Flag::Op1BaseAp,
        Flag::ResAdd,
        Flag::ResMul,
        Flag::PcUpdateJump,
        Flag::PcUpdateJumpRel,
        Flag::PcUpdateJnz,
        Flag::ApUpdateAdd,
        Flag::ApUpdateAdd1,
        Flag::OpcodeCall,
        Flag::OpcodeRet,
        Flag::OpcodeAssertEq,
    ];
    for (k, flag) in flags.iter().enumerate() {
        assert_eq!(flag.weight(), 1 << k);
        let instruction = Instruction { offset0: 0, offset1: 0, offset2: 0, flags: 1 << k };
        for (j, other) in flags.iter().enumerate() {
            assert_eq!(instruction.has(*other), j == k);
        }
    }
}

#[test]
fn values_of_64_bits() {
    assert_eq!(Felt252::from_u64(0).to_u64(), Some(0));
    assert_eq!(Felt252::from_u64(u64::MAX).to_u64(), Some(u64::MAX));
    assert_eq!(Felt252::from_u64(0x1234_5678_9abc_def0).words[0], 0x9abc_def0);
    assert_eq!(Felt252::from_u64(0x1234_5678_9abc_def0).words[1], 0x1234_5678);
    assert_eq!(Felt252 { words: [0, 0, 1, 0, 0, 0, 0, 0] }.to_u64(), None);
    assert_eq!(Felt252 { words: [5, 5, 0, 0, 0, 0, 0, 1] }.to_u64(), None);
    assert!(Felt252::from_u32(0).is_zero());
    assert!(!Felt252::from_u32(1).is_zero());
    assert!(!Felt252 { words: [0, 0, 0, 0, 0, 0, 0, 1] }.is_zero());
}

#[test]
fn division_and_multiplication_by_ten() {
    let (q, r) = Felt252::from_u64(1234567890123).div_rem_10();
    assert_eq!(q.to_u64(), Some(123456789012));
    assert_eq!(r, 3);
    let all_ones = Felt252 { words: [u32::MAX; 8] };
    let (q, r) = all_ones.div_rem_10();
    assert_eq!(r, 5);
    assert!(q.mul_10_add(5).unwrap().same(&all_ones));
    assert!(q.mul_10_add(6).is_none());
    assert!(all_ones.mul_10_add(0).is_none());
    assert_eq!(Felt252::from_u64(42).mul_10_add(7).unwrap().to_u64(), Some(427));
}

#[test]
fn instruction_table_counts_the_steps_at_each_address() {
    let state = |pc: u32| CasmState {
        pc: stwo_cairo::m31::M31::from_u32_unchecked(pc),
        ap: stwo_cairo::m31::M31::from_u32_unchecked(8),
        fp: stwo_cairo::m31::M31::from_u32_unchecked(8),
    };
    let steps = vec![state(1), state(3), state(1), state(1), state(5)];
    let counts = stwo_cairo::components::verify_instruction::multiplicities(&steps, 7);
    assert_eq!(counts, vec![0, 3, 0, 1, 0, 1, 0]);
    assert_eq!(
        stwo_cairo::components::verify_instruction::multiplicities(&Vec::new(), 2),
        vec![0, 0]
    );
}

#[test]
fn instruction_table_row_of_an_addition() {
    let instruction = add_instruction(-3, -4, 3);
    let row = stwo_cairo::components::verify_instruction::table_row(
        &instruction,
        stwo_cairo::m31::M31::from_u32_unchecked(100),
    );
    let values: Vec<u32> = row.iter().map(|v| v.value()).collect();
    assert_eq!(
        values,
        vec![100, 32765, 32764, 32769, 1, 1, 1, 0, 0, 1, 0, 0, 0, 0, 0, 0, 0, 0, 1]
    );
    let row = stwo_cairo::components::verify_instruction::table_row(
        &ret_instruction(),
        stwo_cairo::m31::M31::from_u32_unchecked(3),
    );
    let values: Vec<u32> = row.iter().map(|v| v.value()).collect();
    assert_eq!(
        values,
        vec![3, 32766, 32767, 32767, 1, 1, 0, 1, 0, 0, 0, 1, 0, 0, 0, 0, 0, 1, 0]
    );
}
