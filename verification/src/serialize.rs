//! Claims as field elements, in the order in which the verifier reads them.
//!
//! A number is one element, an extension-field element its four
//! coordinates, a pair its first part and then its second, and a value that
//! may be absent a zero and then the value, or a one alone.

use vstd::prelude::*;

use crate::components::add_opcode_is_small_f_is_imm_t::{Claim, InteractionClaim, LogupSums};
use crate::felt252::Felt252;
use crate::m31::{M31, P};
use crate::secure_field::{SecureValue, QM31};

verus! {

/// The element that says that a value is there.
pub const SOME_TAG: u64 = 0;

/// The element that says that a value is absent.
pub const NONE_TAG: u64 = 1;

/// Why elements are no claim.
#[derive(Clone, Copy, Debug, PartialEq, Eq, Structural)]
pub enum DeserializeError {
    /// The elements end before the claim does.
    UnexpectedEnd,
    /// An element is not what stands at its place: a number too large, or a
    /// tag that is neither zero nor one.
    InvalidValue,
}

/// The elements of an extension-field element.
pub open spec fn secure_elements(x: SecureValue) -> Seq<int> {
    seq![x.a, x.b, x.c, x.d]
}

/// The elements of a claim.
pub open spec fn claim_elements(n_calls: usize) -> Seq<int> {
    seq![n_calls as int]
}

/// The elements of an interaction claim.
pub open spec fn interaction_claim_elements(
    sums: (SecureValue, Option<(SecureValue, usize)>),
) -> Seq<int> {
    secure_elements(sums.0) + match sums.1 {
        Some(claimed) => seq![SOME_TAG as int] + secure_elements(claimed.0) + seq![
            claimed.1 as int,
        ],
        None => seq![NONE_TAG as int],
    }
}

/// The numbers that elements stand for.
pub open spec fn values_of(elements: Seq<Felt252>) -> Seq<int> {
    elements.map_values(|e: Felt252| e@)
}

/// What a reader finds at a place of the elements: a value and the place
/// after it, or an error.
pub enum Read<T> {
    Value(T, int),
    Error(DeserializeError),
}

/// A number of the machine's word size at a place.
pub open spec fn read_usize(elements: Seq<int>, position: int) -> Read<usize> {
    if position >= elements.len() {
        Read::Error(DeserializeError::UnexpectedEnd)
    } else if elements[position] > usize::MAX {
        Read::Error(DeserializeError::InvalidValue)
    } else {
        Read::Value(elements[position] as usize, position + 1)
    }
}

/// An extension-field element at a place.
pub open spec fn read_secure(elements: Seq<int>, position: int) -> Read<SecureValue> {
    if position + 4 > elements.len() {
        Read::Error(DeserializeError::UnexpectedEnd)
    } else if elements[position] >= P || elements[position + 1] >= P || elements[position + 2]
        >= P || elements[position + 3] >= P {
        Read::Error(DeserializeError::InvalidValue)
    } else {
        Read::Value(
            SecureValue {
                a: elements[position],
                b: elements[position + 1],
                c: elements[position + 2],
                d: elements[position + 3],
            },
            position + 4,
        )
    }
}

/// A claim at a place.
pub open spec fn read_claim(elements: Seq<int>, position: int) -> Read<usize> {
    read_usize(elements, position)
}

/// An interaction claim at a place.
pub open spec fn read_interaction_claim(elements: Seq<int>, position: int) -> Read<
    (SecureValue, Option<(SecureValue, usize)>),
> {
    match read_secure(elements, position) {
        Read::Error(error) => Read::Error(error),
        Read::Value(total, after_total) => if after_total >= elements.len() {
            Read::Error(DeserializeError::UnexpectedEnd)
        } else if elements[after_total] == NONE_TAG {
            Read::Value((total, None), after_total + 1)
        } else if elements[after_total] == SOME_TAG {
            match read_secure(elements, after_total + 1) {
                Read::Error(error) => Read::Error(error),
                Read::Value(claimed, after_claimed) => match read_usize(elements, after_claimed) {
                    Read::Error(error) => Read::Error(error),
                    Read::Value(row, after_row) => Read::Value(
                        (total, Some((claimed, row))),
                        after_row,
                    ),
                },
            }
        } else {
            Read::Error(DeserializeError::InvalidValue)
        },
    }
}

/// Appends the coordinates of an extension-field element.
fn serialize_secure(x: &QM31, output: &mut Vec<Felt252>)
    ensures
        values_of(final(output)@) == values_of(old(output)@) + secure_elements(x@),
{
    let coordinates: [M31; 4] = x.to_m31_array();
    let ghost before = values_of(output@);
    output.push(Felt252::from_u32(coordinates[0].value()));
    output.push(Felt252::from_u32(coordinates[1].value()));
    output.push(Felt252::from_u32(coordinates[2].value()));
    output.push(Felt252::from_u32(coordinates[3].value()));
    assert(values_of(output@) =~= before + secure_elements(x@));
}

/// Appends a number.
fn serialize_u64(v: u64, output: &mut Vec<Felt252>)
    ensures
        values_of(final(output)@) == values_of(old(output)@) + seq![v as int],
{
    let ghost before = values_of(output@);
    output.push(Felt252::from_u64(v));
    assert(values_of(output@) =~= before + seq![v as int]);
}

/// Reads a number of the machine's word size.
fn deserialize_usize(elements: &Vec<Felt252>, position: usize) -> (r: Result<
    (usize, usize),
    DeserializeError,
>)
    ensures
        match r {
            Ok((value, next)) => read_usize(values_of(elements@), position as int) == Read::Value(
                value,
                next as int,
            ) && next <= elements@.len(),
            Err(error) => read_usize(values_of(elements@), position as int) == Read::<
                usize,
            >::Error(error),
        },
{
    if position >= elements.len() {
        return Err(DeserializeError::UnexpectedEnd);
    }
    match elements[position].to_u64() {
        Some(v) => if v > usize::MAX as u64 {
            Err(DeserializeError::InvalidValue)
        } else {
            Ok((v as usize, position + 1))
        },
        None => Err(DeserializeError::InvalidValue),
    }
}

/// Reads a coordinate of an extension-field element.
fn coordinate_of(element: &Felt252) -> (r: Option<M31>)
    ensures
        r is Some <==> element@ < P,
        r matches Some(x) ==> x@ == element@,
{
    proof {
        crate::felt252::lemma_value_dominates(*element);
    }
    match element.to_u64() {
        Some(v) => if v < P as u64 {
            Some(M31::from_u32_unchecked(v as u32))
        } else {
            None
        },
        None => None,
    }
}

/// Reads an extension-field element.
fn deserialize_secure(elements: &Vec<Felt252>, position: usize) -> (r: Result<
    (QM31, usize),
    DeserializeError,
>)
    ensures
        match r {
            Ok((value, next)) => read_secure(values_of(elements@), position as int) == Read::Value(
                value@,
                next as int,
            ) && next <= elements@.len(),
            Err(error) => read_secure(values_of(elements@), position as int) == Read::<
                SecureValue,
            >::Error(error),
        },
{
    if position > elements.len() || elements.len() - position < 4 {
        return Err(DeserializeError::UnexpectedEnd);
    }
    let a: Option<M31> = coordinate_of(&elements[position]);
    let b: Option<M31> = coordinate_of(&elements[position + 1]);
    let c: Option<M31> = coordinate_of(&elements[position + 2]);
    let d: Option<M31> = coordinate_of(&elements[position + 3]);
    match (a, b, c, d) {
        (Some(a), Some(b), Some(c), Some(d)) => Ok((QM31::from_m31(a, b, c, d), position + 4)),
        _ => Err(DeserializeError::InvalidValue),
    }
}

impl Claim {
    /// Appends the elements of the claim.
    pub fn serialize(&self, output: &mut Vec<Felt252>)
        ensures
            values_of(final(output)@) == values_of(old(output)@) + claim_elements(self.n_calls),
    {
        serialize_u64(self.n_calls as u64, output);
    }

    /// Reads a claim at a place of the elements, and tells the place after
    /// it.
    pub fn deserialize(elements: &Vec<Felt252>, position: usize) -> (r: Result<
        (Claim, usize),
        DeserializeError,
    >)
        ensures
            match r {
                Ok((claim, next)) => read_claim(values_of(elements@), position as int)
                    == Read::Value(claim.n_calls, next as int) && next <= elements@.len(),
                Err(error) => read_claim(values_of(elements@), position as int) == Read::<
                    usize,
                >::Error(error),
            },
    {
        match deserialize_usize(elements, position) {
            Ok((n_calls, next)) => Ok((Claim { n_calls }, next)),
            Err(error) => Err(error),
        }
    }
}

impl InteractionClaim {
    /// Appends the elements of the claim.
    pub fn serialize(&self, output: &mut Vec<Felt252>)
        ensures
            values_of(final(output)@) == values_of(old(output)@) + interaction_claim_elements(
                self.sums(),
            ),
    {
        let ghost before = values_of(output@);
        let sums: LogupSums = self.logup_sums;
        serialize_secure(&sums.0, output);
        match sums.1 {
            Some(claimed) => {
                serialize_u64(SOME_TAG, output);
                serialize_secure(&claimed.0, output);
                serialize_u64(claimed.1 as u64, output);
                assert(values_of(output@) =~= before + interaction_claim_elements(self.sums()));
            },
            None => {
                serialize_u64(NONE_TAG, output);
                assert(values_of(output@) =~= before + interaction_claim_elements(self.sums()));
            },
        }
    }

    /// Reads a claim at a place of the elements, and tells the place after
    /// it.
    pub fn deserialize(elements: &Vec<Felt252>, position: usize) -> (r: Result<
        (InteractionClaim, usize),
        DeserializeError,
    >)
        ensures
            match r {
                Ok((claim, next)) => read_interaction_claim(
                    values_of(elements@),
                    position as int,
                ) == Read::Value(claim.sums(), next as int) && next <= elements@.len(),
                Err(error) => read_interaction_claim(values_of(elements@), position as int)
                    == Read::<(SecureValue, Option<(SecureValue, usize)>)>::Error(error),
            },
    {
        let (total, after_total) = match deserialize_secure(elements, position) {
            Ok(read) => read,
            Err(error) => {
                return Err(error);
            },
        };
        if after_total >= elements.len() {
            return Err(DeserializeError::UnexpectedEnd);
        }
        let tag: Option<u64> = elements[after_total].to_u64();
        match tag {
            Some(1) => Ok((InteractionClaim { logup_sums: (total, None) }, after_total + 1)),
            Some(0) => {
                let (claimed, after_claimed) = match deserialize_secure(elements, after_total + 1) {
                    Ok(read) => read,
                    Err(error) => {
                        return Err(error);
                    },
                };
                let (row, after_row) = match deserialize_usize(elements, after_claimed) {
                    Ok(read) => read,
                    Err(error) => {
                        return Err(error);
                    },
                };
                Ok((InteractionClaim { logup_sums: (total, Some((claimed, row))) }, after_row))
            },
            _ => Err(DeserializeError::InvalidValue),
        }
    }
}

/// A claim that is written and read again is the same claim, and the reader
/// stands after it.
pub proof fn lemma_claim_round_trip(before: Seq<int>, n_calls: usize, after: Seq<int>)
    ensures
        read_claim(before + claim_elements(n_calls) + after, before.len() as int) == Read::Value(
            n_calls,
            before.len() as int + 1,
        ),
{
}

/// An interaction claim that is written and read again is the same claim,
/// and the reader stands after it.
pub proof fn lemma_interaction_claim_round_trip(
    before: Seq<int>,
    sums: (SecureValue, Option<(SecureValue, usize)>),
    after: Seq<int>,
)
    requires
        sums.0.reduced(),
        sums.1 matches Some(claimed) ==> claimed.0.reduced(),
    ensures
        read_interaction_claim(
            before + interaction_claim_elements(sums) + after,
            before.len() as int,
        ) == Read::Value(sums, (before.len() + interaction_claim_elements(sums).len()) as int),
{
    let elements = before + interaction_claim_elements(sums) + after;
    let start = before.len() as int;
    assert(read_secure(elements, start) == Read::Value(sums.0, start + 4));
    match sums.1 {
        Some(claimed) => {
            assert(elements[start + 4] == SOME_TAG);
            assert(read_secure(elements, start + 5) == Read::Value(claimed.0, start + 9));
            assert(read_usize(elements, start + 9) == Read::Value(claimed.1, start + 10));
        },
        None => {
            assert(elements[start + 4] == NONE_TAG);
        },
    }
}

/// Elements cut short hold no claim: read from a proper prefix of its
/// elements, an interaction claim ends too early.
pub proof fn lemma_truncated_interaction_claim(
    sums: (SecureValue, Option<(SecureValue, usize)>),
    kept: int,
)
    requires
        sums.0.reduced(),
        sums.1 matches Some(claimed) ==> claimed.0.reduced(),
        0 <= kept < interaction_claim_elements(sums).len(),
    ensures
        read_interaction_claim(interaction_claim_elements(sums).take(kept), 0) == Read::<
            (SecureValue, Option<(SecureValue, usize)>),
        >::Error(DeserializeError::UnexpectedEnd),
{
    let whole = interaction_claim_elements(sums);
    let elements = whole.take(kept);
    if kept >= 4 {
        assert(read_secure(elements, 0) == Read::Value(sums.0, 4));
        if kept >= 5 {
            assert(elements[4] == whole[4]);
            match sums.1 {
                Some(claimed) => {
                    if kept >= 9 {
                        assert(read_secure(elements, 5) == Read::Value(claimed.0, 9));
                    }
                },
                None => {},
            }
        }
    }
}

} // verus!
