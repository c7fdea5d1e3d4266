//! The lookup relations that tie the components together.

use vstd::prelude::*;

use crate::secure_field::QM31;

verus! {

/// A lookup relation. Over all components, the entries of each must cancel.
#[derive(Clone, Copy, Debug, PartialEq, Eq, Structural)]
pub enum Relation {
    /// Memory address to memory id.
    MemoryAddressToId,
    /// Memory id to the 28 limbs of the value.
    MemoryIdToBig,
    /// The register state `(pc, ap, fp)` before or after a step.
    Opcodes,
    /// A decoded instruction at its address.
    VerifyInstruction,
}

impl Relation {
    /// The number of values in an entry of the relation.
    pub open spec fn spec_size(self) -> nat {
        match self {
            Relation::MemoryAddressToId => 2,
            Relation::MemoryIdToBig => 29,
            Relation::Opcodes => 3,
            Relation::VerifyInstruction => 19,
        }
    }

    pub fn size(self) -> (n: usize)
        ensures
            n == self.spec_size(),
    {
        match self {
            Relation::MemoryAddressToId => 2,
            Relation::MemoryIdToBig => 29,
            Relation::Opcodes => 3,
            Relation::VerifyInstruction => 19,
        }
    }
}

/// The challenges of one relation: an entry `v_0, v_1, ..` is looked up as
/// the fraction of its multiplicity over `v_0 + alpha v_1 + .. - z`.
#[derive(Clone, Copy, Debug)]
pub struct LookupElements {
    pub z: QM31,
    pub alpha: QM31,
}

/// One entry that a row adds to a relation.
#[derive(Debug)]
pub struct RelationEntry<F> {
    pub relation: Relation,
    /// How often the row uses the entry; negative where it yields it.
    pub multiplicity: i32,
    pub values: Vec<F>,
}

/// What an entry holds.
pub struct RelationEntryValue<F> {
    pub relation: Relation,
    pub multiplicity: int,
    pub values: Seq<F>,
}

impl<F> View for RelationEntry<F> {
    type V = RelationEntryValue<F>;

    open spec fn view(&self) -> RelationEntryValue<F> {
        RelationEntryValue {
            relation: self.relation,
            multiplicity: self.multiplicity as int,
            values: self.values@,
        }
    }
}

/// What a list of entries holds.
pub open spec fn entry_values<F>(entries: Seq<RelationEntry<F>>) -> Seq<RelationEntryValue<F>> {
    entries.map_values(|entry: RelationEntry<F>| entry@)
}

} // verus!
