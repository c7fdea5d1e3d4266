//! Building blocks of a STARK prover for runs of the Cairo machine, over the
//! Mersenne field of order `2^31 - 1`.
//!
//! - [`m31`], [`secure_field`], [`algebra`], [`field_like`], [`log2`]: the
//!   base field, its extension of degree four, what a constraint evaluator
//!   asks of its values, and the logarithms of sizes.
//! - [`felt252`], [`memory`], [`instruction`], [`adapter`]: the values, the
//!   memory and the instructions of a run, and what the prover takes of it.
//! - [`components`]: the range-check unit, the `add` opcode with an
//!   immediate, and the instruction table.
//! - [`logup`], [`channel`], [`relations`], [`circle`]: the lookup argument
//!   and what it draws from and hands to the channel.
//! - [`serialize`], [`proof_text`]: claims as field elements, and a proof as
//!   text.
//! - [`host`], [`env_macro`]: what a host decides around a run.

pub mod adapter;
pub mod algebra;
pub mod channel;
pub mod circle;
pub mod components;
pub mod env_macro;
pub mod felt252;
pub mod field_like;
pub mod host;
pub mod instruction;
pub mod log2;
pub mod logup;
pub mod m31;
pub mod memory;
pub mod proof_text;
pub mod relations;
pub mod secure_field;
pub mod serialize;
