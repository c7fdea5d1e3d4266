//! A proof on disk: the field elements of its serialization as decimal
//! numbers, with a space between one and the next, in square brackets.
//!
//! The elements are those of the 252-bit field: numbers below its modulus.

use vstd::arithmetic::power2::pow2;
use vstd::prelude::*;

use crate::felt252::{modulus, Felt252};

verus! {

/// `[`, which opens the list.
pub const OPEN: u8 = 91;

/// `]`, which closes the list.
pub const CLOSE: u8 = 93;

/// The space between one element and the next.
pub const SPACE: u8 = 32;

/// `0`, the first of the digits.
pub const ZERO: u8 = 48;

/// Why a text is no proof.
#[derive(Clone, Copy, Debug, PartialEq, Eq, Structural)]
pub enum SerializationError {
    /// The text does not open with `[` and close with `]`.
    MissingBrackets,
    /// A byte is no digit and no space.
    UnexpectedByte,
    /// An element has no digit: the list is empty, or a space stands where
    /// an element should.
    EmptyElement,
    /// An element is the modulus of the field or more.
    ElementTooLarge,
}

/// The decimal digits of a number, the first not zero unless the number is.
pub open spec fn decimal(n: nat) -> Seq<u8>
    decreases n,
{
    if n < 10 {
        seq![(ZERO + n) as u8]
    } else {
        decimal(n / 10).push((ZERO + n % 10) as u8)
    }
}

/// The numbers in decimal, with a space between one and the next.
pub open spec fn joined(values: Seq<nat>) -> Seq<u8>
    decreases values.len(),
{
    if values.len() == 0 {
        Seq::empty()
    } else if values.len() == 1 {
        decimal(values[0])
    } else {
        joined(values.drop_last()) + seq![SPACE] + decimal(values.last())
    }
}

/// The text of a proof with the given elements.
pub open spec fn proof_text(values: Seq<nat>) -> Seq<u8> {
    seq![OPEN] + joined(values) + seq![CLOSE]
}

/// What a reader of the list has before it: the elements read, and the
/// number that the digits of the element at hand stand for.
pub struct ScanState {
    pub values: Seq<nat>,
    pub current: Option<nat>,
}

/// A reader after one byte more.
pub open spec fn step(state: Result<ScanState, SerializationError>, byte: u8) -> Result<
    ScanState,
    SerializationError,
> {
    match state {
        Err(error) => Err(error),
        Ok(state) => if ZERO <= byte <= ZERO + 9 {
            let before = match state.current {
                Some(v) => v,
                None => 0,
            };
            let value = (10 * before + (byte - ZERO)) as nat;
            if value < modulus() {
                Ok(ScanState { values: state.values, current: Some(value) })
            } else {
                Err(SerializationError::ElementTooLarge)
            }
        } else if byte == SPACE {
            match state.current {
                Some(v) => Ok(ScanState { values: state.values.push(v), current: None }),
                None => Err(SerializationError::EmptyElement),
            }
        } else {
            Err(SerializationError::UnexpectedByte)
        },
    }
}

/// A reader after the given bytes.
pub open spec fn scan(state: Result<ScanState, SerializationError>, bytes: Seq<u8>) -> Result<
    ScanState,
    SerializationError,
>
    decreases bytes.len(),
{
    if bytes.len() == 0 {
        state
    } else {
        step(scan(state, bytes.drop_last()), bytes.last())
    }
}

/// A reader that has read nothing.
pub open spec fn start() -> Result<ScanState, SerializationError> {
    Ok(ScanState { values: Seq::empty(), current: None })
}

/// The elements of the proof that a text holds.
pub open spec fn parsed(text: Seq<u8>) -> Result<Seq<nat>, SerializationError> {
    if text.len() < 2 || text[0] != OPEN || text.last() != CLOSE {
        Err(SerializationError::MissingBrackets)
    } else {
        match scan(start(), text.subrange(1, text.len() - 1)) {
            Err(error) => Err(error),
            Ok(state) => match state.current {
                Some(v) => Ok(state.values.push(v)),
                None => Err(SerializationError::EmptyElement),
            },
        }
    }
}

/// The numbers that elements stand for.
pub open spec fn element_values(elements: Seq<Felt252>) -> Seq<nat> {
    elements.map_values(|e: Felt252| e@ as nat)
}

/// The bytes in the opposite order.
fn reversed(bytes: &Vec<u8>) -> (r: Vec<u8>)
    ensures
        r@ == bytes@.reverse(),
{
    let mut r: Vec<u8> = Vec::new();
    let mut i: usize = bytes.len();
    while i > 0
        invariant
            0 <= i <= bytes@.len(),
            r@.len() == bytes@.len() - i,
            forall|k: int| 0 <= k < r@.len() ==> r@[k] == bytes@[bytes@.len() - 1 - k],
        decreases i,
    {
        i = i - 1;
        r.push(bytes[i]);
    }
    assert(r@ =~= bytes@.reverse());
    r
}

/// Appends bytes to a text.
fn push_all(text: &mut Vec<u8>, bytes: &Vec<u8>)
    ensures
        final(text)@ == old(text)@ + bytes@,
{
    let mut i: usize = 0;
    while i < bytes.len()
        invariant
            0 <= i <= bytes@.len(),
            text@ == old(text)@ + bytes@.take(i as int),
        decreases bytes@.len() - i,
    {
        text.push(bytes[i]);
        assert(text@ =~= old(text)@ + bytes@.take(i + 1));
        i = i + 1;
    }
    assert(bytes@.take(bytes@.len() as int) =~= bytes@);
}

/// The decimal digits of an element.
pub fn to_decimal(element: &Felt252) -> (digits: Vec<u8>)
    ensures
        digits@ == decimal(element@ as nat),
{
    let mut current: Felt252 = *element;
    let mut low_first: Vec<u8> = Vec::new();
    proof {
        crate::felt252::lemma_value_dominates(*element);
        assert(decimal(element@ as nat) =~= decimal(current@ as nat) + low_first@.reverse());
    }
    loop
        invariant_except_break
            current@ >= 0,
            decimal(element@ as nat) == decimal(current@ as nat) + low_first@.reverse(),
        ensures
            decimal(element@ as nat) == low_first@.reverse(),
        decreases current@,
    {
        let (quotient, remainder) = current.div_rem_10();
        let digit: u8 = ZERO + remainder as u8;
        let ghost before = low_first@;
        low_first.push(digit);
        proof {
            assert(low_first@.reverse() =~= seq![digit] + before.reverse());
            let n = current@ as nat;
            assert(n % 10 == remainder && n / 10 == quotient@);
            if n >= 10 {
                assert(decimal(n) == decimal(n / 10).push(digit));
                assert(decimal(n / 10).push(digit) + before.reverse() =~= decimal(n / 10) + (
                seq![digit] + before.reverse()));
            } else {
                assert(decimal(n) == seq![digit]);
            }
        }
        if quotient.is_zero() {
            break ;
        }
        current = quotient;
    }
    reversed(&low_first)
}

/// The text of a proof with the given elements.
pub fn format_proof(elements: &Vec<Felt252>) -> (text: Vec<u8>)
    requires
        elements@.len() > 0,
    ensures
        text@ == proof_text(element_values(elements@)),
{
    let ghost values = element_values(elements@);
    let mut text: Vec<u8> = Vec::new();
    text.push(OPEN);
    let mut i: usize = 0;
    assert(text@ =~= seq![OPEN] + joined(values.take(0)));
    while i < elements.len()
        invariant
            0 <= i <= elements@.len(),
            values == element_values(elements@),
            text@ == seq![OPEN] + joined(values.take(i as int)),
        decreases elements@.len() - i,
    {
        let ghost before = text@;
        if i > 0 {
            text.push(SPACE);
        }
        let digits: Vec<u8> = to_decimal(&elements[i]);
        push_all(&mut text, &digits);
        proof {
            let prefix = values.take(i + 1);
            assert(prefix.drop_last() =~= values.take(i as int));
            assert(prefix.last() == values[i as int]);
            if i > 0 {
                assert(text@ =~= seq![OPEN] + (joined(values.take(i as int)) + seq![SPACE]
                    + decimal(values[i as int])));
            } else {
                assert(joined(values.take(0)) =~= Seq::<u8>::empty());
                assert(text@ =~= seq![OPEN] + decimal(values[0]));
            }
        }
        i = i + 1;
    }
    text.push(CLOSE);
    proof {
        assert(values.take(elements@.len() as int) =~= values);
        assert(text@ =~= proof_text(values));
    }
    text
}

/// The elements of the proof that a text holds.
pub fn parse_proof(text: &Vec<u8>) -> (r: Result<Vec<Felt252>, SerializationError>)
    ensures
        r matches Ok(elements) ==> parsed(text@) == Ok::<Seq<nat>, SerializationError>(
            element_values(elements@),
        ),
        r matches Err(error) ==> parsed(text@) == Err::<Seq<nat>, SerializationError>(error),
{
    let n: usize = text.len();
    if n < 2 || text[0] != OPEN || text[n - 1] != CLOSE {
        return Err(SerializationError::MissingBrackets);
    }
    let ghost body = text@.subrange(1, n - 1);
    let mut elements: Vec<Felt252> = Vec::new();
    let mut current: Option<Felt252> = None;
    let mut i: usize = 1;
    assert(body.take(0) =~= Seq::<u8>::empty());
    assert(element_values(elements@) =~= Seq::<nat>::empty());
    while i < n - 1
        invariant
            1 <= i <= n - 1,
            n == text@.len(),
            text@[0] == OPEN,
            text@[n - 1] == CLOSE,
            body == text@.subrange(1, n - 1),
            current matches Some(v) ==> v@ >= 0,
            scan(start(), body.take(i - 1)) == Ok::<ScanState, SerializationError>(
                ScanState {
                    values: element_values(elements@),
                    current: match current {
                        Some(v) => Some(v@ as nat),
                        None => None,
                    },
                },
            ),
        decreases n - i,
    {
        let byte: u8 = text[i];
        let ghost state = scan(start(), body.take(i - 1));
        proof {
            assert(body.take(i as int).drop_last() =~= body.take(i - 1));
            assert(body.take(i as int).last() == byte);
            assert(scan(start(), body.take(i as int)) == step(state, byte));
        }
        if ZERO <= byte && byte <= ZERO + 9 {
            let before: Felt252 = match current {
                Some(v) => v,
                None => Felt252::from_u32(0),
            };
            let next: Option<Felt252> = match before.mul_10_add((byte - ZERO) as u32) {
                Some(value) => if value.is_canonical() {
                    Some(value)
                } else {
                    None
                },
                None => None,
            };
            proof {
                lemma_modulus_below_limit();
            }
            match next {
                Some(value) => {
                    current = Some(value);
                },
                None => {
                    proof {
                        assert(step(state, byte) == Err::<ScanState, SerializationError>(
                            SerializationError::ElementTooLarge,
                        ));
                        lemma_scan_error(
                            scan(start(), body.take(i as int)),
                            body.take(i as int),
                            body,
                        );
                    }
                    return Err(SerializationError::ElementTooLarge);
                },
            }
        } else if byte == SPACE {
            match current {
                Some(v) => {
                    let ghost values = element_values(elements@);
                    elements.push(v);
                    assert(element_values(elements@) =~= values.push(v@ as nat));
                    current = None;
                },
                None => {
                    proof {
                        lemma_scan_error(
                            scan(start(), body.take(i as int)),
                            body.take(i as int),
                            body,
                        );
                    }
                    return Err(SerializationError::EmptyElement);
                },
            }
        } else {
            proof {
                assert(step(state, byte) == Err::<ScanState, SerializationError>(
                    SerializationError::UnexpectedByte,
                ));
                lemma_scan_error(scan(start(), body.take(i as int)), body.take(i as int), body);
            }
            return Err(SerializationError::UnexpectedByte);
        }
        i = i + 1;
    }
    assert(body.take(n - 2) =~= body);
    match current {
        Some(v) => {
            let ghost values = element_values(elements@);
            elements.push(v);
            assert(element_values(elements@) =~= values.push(v@ as nat));
            Ok(elements)
        },
        None => Err(SerializationError::EmptyElement),
    }
}

/// A reader that has failed on a part of the bytes has failed on them all.
pub proof fn lemma_scan_error(
    state: Result<ScanState, SerializationError>,
    prefix: Seq<u8>,
    bytes: Seq<u8>,
)
    requires
        state is Err,
        prefix.len() <= bytes.len(),
        prefix == bytes.take(prefix.len() as int),
        state == scan(start(), prefix),
    ensures
        scan(start(), bytes) == state,
    decreases bytes.len() - prefix.len(),
{
    if prefix.len() == bytes.len() {
        assert(bytes.take(bytes.len() as int) =~= bytes);
    } else {
        let longer = bytes.take(prefix.len() as int + 1);
        assert(longer.drop_last() =~= prefix);
        lemma_scan_error(scan(start(), longer), longer, bytes);
    }
}

/// Reading one text after another is reading the two as one.
pub proof fn lemma_scan_concat(
    state: Result<ScanState, SerializationError>,
    first: Seq<u8>,
    second: Seq<u8>,
)
    ensures
        scan(state, first + second) == scan(scan(state, first), second),
    decreases second.len(),
{
    if second.len() == 0 {
        assert(first + second =~= first);
    } else {
        lemma_scan_concat(state, first, second.drop_last());
        assert((first + second).drop_last() =~= first + second.drop_last());
    }
}

/// The modulus is below `2^256`.
pub proof fn lemma_modulus_below_limit()
    ensures
        0 < modulus() < pow2(256),
{
    crate::felt252::lemma_modulus_bound();
    vstd::arithmetic::power2::lemma_pow2_strictly_increases(252, 256);
}

/// Reading the digits of a number gives the number.
pub proof fn lemma_scan_decimal(values: Seq<nat>, n: nat)
    requires
        n < modulus(),
    ensures
        scan(Ok(ScanState { values, current: None }), decimal(n)) == Ok::<
            ScanState,
            SerializationError,
        >(ScanState { values, current: Some(n) }),
    decreases n,
{
    let state = Ok::<ScanState, SerializationError>(ScanState { values, current: None });
    if n < 10 {
        assert(decimal(n).drop_last() =~= Seq::<u8>::empty());
        assert(scan(state, decimal(n).drop_last()) == state);
    } else {
        lemma_scan_decimal(values, n / 10);
        assert(decimal(n).drop_last() =~= decimal(n / 10));
    }
}

/// Reading numbers in decimal with spaces between gives the numbers.
pub proof fn lemma_scan_joined(values: Seq<nat>)
    requires
        values.len() > 0,
        forall|i: int| 0 <= i < values.len() ==> #[trigger] values[i] < modulus(),
    ensures
        scan(start(), joined(values)) == Ok::<ScanState, SerializationError>(
            ScanState { values: values.drop_last(), current: Some(values.last()) },
        ),
    decreases values.len(),
{
    if values.len() == 1 {
        lemma_scan_decimal(Seq::empty(), values[0]);
        assert(values.drop_last() =~= Seq::<nat>::empty());
        assert(joined(values) == decimal(values[0]));
    } else {
        let front = values.drop_last();
        let last = values.last();
        lemma_scan_joined(front);
        let read_front = scan(start(), joined(front));
        let spaced = joined(front) + seq![SPACE];
        lemma_scan_concat(start(), joined(front), seq![SPACE]);
        assert(seq![SPACE].drop_last() =~= Seq::<u8>::empty());
        assert(scan(read_front, Seq::<u8>::empty()) == read_front);
        assert(scan(read_front, seq![SPACE]) == step(read_front, SPACE));
        assert(front.drop_last().push(front.last()) =~= front);
        assert(scan(start(), spaced) == Ok::<ScanState, SerializationError>(
            ScanState { values: front, current: None },
        ));
        lemma_scan_concat(start(), spaced, decimal(last));
        lemma_scan_decimal(front, last);
        assert(joined(values) == spaced + decimal(last));
    }
}

/// A proof that is written and read again is the same proof: the text of
/// elements holds those elements.
pub proof fn lemma_parse_format(values: Seq<nat>)
    requires
        values.len() > 0,
        forall|i: int| 0 <= i < values.len() ==> #[trigger] values[i] < modulus(),
    ensures
        parsed(proof_text(values)) == Ok::<Seq<nat>, SerializationError>(values),
{
    let text = proof_text(values);
    lemma_scan_joined(values);
    assert(text.subrange(1, text.len() - 1) =~= joined(values));
    assert(values.drop_last().push(values.last()) =~= values);
}

} // verus!
