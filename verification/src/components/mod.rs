//! The components of the proof system, each with its claim and its
//! constraints.

pub mod add_opcode_is_small_f_is_imm_t;
pub mod range_check_unit;
pub mod verify_add_252;
pub mod verify_instruction;
