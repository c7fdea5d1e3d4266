use stwo_cairo::components::add_opcode_is_small_f_is_imm_t::{Claim, InteractionClaim};
use stwo_cairo::felt252::Felt252;
use stwo_cairo::proof_text::{
    format_proof, parse_proof, to_decimal, SerializationError, CLOSE, OPEN, SPACE, ZERO,
};
use stwo_cairo::secure_field::QM31;
use stwo_cairo::serialize::{DeserializeError, NONE_TAG, SOME_TAG};

fn text(elements: &[Felt252]) -> String {
    String::from_utf8(format_proof(&elements.to_vec())).unwrap()
}

fn parse(text: &str) -> Result<Vec<Felt252>, SerializationError> {
    parse_proof(&text.as_bytes().to_vec())
}

fn words(elements: &[Felt252]) -> Vec<[u32; 8]> {
    elements.iter().map(|e| e.words).collect()
}

fn modulus_minus_one() -> Felt252 {
    Felt252 { words: [0, 0, 0, 0, 0, 0, 17, 0x0800_0000] }
}

fn starknet(value: &Felt252) -> starknet_ff::FieldElement {
    let mut bytes = [0u8; 32];
    for (i, word) in value.words.iter().enumerate() {
        bytes[28 - 4 * i..32 - 4 * i].copy_from_slice(&word.to_be_bytes());
    }
    starknet_ff::FieldElement::from_bytes_be(&bytes).unwrap()
}

#[test]
fn bytes_of_the_text() {
    assert_eq!(OPEN, b'[');
    assert_eq!(CLOSE, b']');
    assert_eq!(SPACE, b' ');
    assert_eq!(ZERO, b'0');
}

#[test]
fn decimal_digits() {
    assert_eq!(to_decimal(&Felt252::from_u32(0)), b"0".to_vec());
    assert_eq!(to_decimal(&Felt252::from_u32(7)), b"7".to_vec());
    assert_eq!(to_decimal(&Felt252::from_u32(10)), b"10".to_vec());
    assert_eq!(to_decimal(&Felt252::from_u32(4294967295)), b"4294967295".to_vec());
    assert_eq!(
        to_decimal(&Felt252::from_u64(18446744073709551615)),
        b"18446744073709551615".to_vec()
    );
    assert_eq!(
        String::from_utf8(to_decimal(&modulus_minus_one())).unwrap(),
        "3618502788666131213697322783095070105623107215331596699973092056135872020480"
    );
}

#[test]
fn decimal_digits_are_those_of_starknet_ff() {
    let samples = [
        Felt252::from_u32(0),
        Felt252::from_u32(512),
        Felt252::from_u64(u64::MAX),
        modulus_minus_one(),
        Felt252 { words: [0xdeadbeef, 1, 2, 3, 4, 5, 6, 0x07ffffff] },
    ];
    for sample in samples.iter() {
        let expected = starknet(sample).to_string();
        assert_eq!(String::from_utf8(to_decimal(sample)).unwrap(), expected);
    }
}

#[test]
fn text_of_a_proof() {
    assert_eq!(text(&[Felt252::from_u32(5)]), "[5]");
    assert_eq!(
        text(&[Felt252::from_u32(1), Felt252::from_u32(0), Felt252::from_u32(1000)]),
        "[1 0 1000]"
    );
}

#[test]
fn elements_of_a_text() {
    let elements = parse("[1 0 1000]").unwrap();
    assert_eq!(elements.len(), 3);
    assert_eq!(elements[0].to_u64(), Some(1));
    assert_eq!(elements[1].to_u64(), Some(0));
    assert_eq!(elements[2].to_u64(), Some(1000));
    assert_eq!(parse("[007]").unwrap()[0].to_u64(), Some(7));
}

#[test]
fn written_and_read_again() {
    let elements = vec![
        Felt252::from_u32(0),
        modulus_minus_one(),
        Felt252::from_u64(u64::MAX),
        Felt252 { words: [u32::MAX, u32::MAX, u32::MAX, u32::MAX, u32::MAX, u32::MAX, 16, 0x0800_0000] },
        Felt252::from_u32(9),
    ];
    let written = format_proof(&elements);
    let read = parse_proof(&written).unwrap();
    assert_eq!(words(&read), words(&elements));
    assert_eq!(format_proof(&read), written);
}

#[test]
fn a_text_without_brackets_is_refused() {
    for bad in ["", "[", "]", "1 2", "[1 2", "1 2]", "]1 2[", " [1]", "[1] "] {
        assert_eq!(parse(bad).err(), Some(SerializationError::MissingBrackets), "{:?}", bad);
    }
}

#[test]
fn a_text_with_another_byte_is_refused() {
    for bad in ["[1,2]", "[a]", "[1\t2]", "[-1]", "[1 2\n]", "[[1]]", "[0x10]"] {
        assert_eq!(parse(bad).err(), Some(SerializationError::UnexpectedByte), "{:?}", bad);
    }
}

#[test]
fn a_text_with_an_empty_element_is_refused() {
    for bad in ["[]", "[ ]", "[1  2]", "[ 1]", "[1 ]", "[1 2 ]"] {
        assert_eq!(parse(bad).err(), Some(SerializationError::EmptyElement), "{:?}", bad);
    }
}

#[test]
fn an_element_outside_the_field_is_refused() {
    let largest = "3618502788666131213697322783095070105623107215331596699973092056135872020480";
    let modulus = "3618502788666131213697322783095070105623107215331596699973092056135872020481";
    let beyond = "115792089237316195423570985008687907853269984665640564039457584007913129639936";
    let read = parse(&format!("[{}]", largest)).unwrap();
    assert_eq!(read[0].words, modulus_minus_one().words);
    assert_eq!(
        parse(&format!("[1 {}]", modulus)).err(),
        Some(SerializationError::ElementTooLarge)
    );
    assert_eq!(
        parse(&format!("[{}]", beyond)).err(),
        Some(SerializationError::ElementTooLarge)
    );
    assert_eq!(
        parse(&format!("[{}0]", largest)).err(),
        Some(SerializationError::ElementTooLarge)
    );
}

#[test]
fn elements_of_the_field() {
    assert!(Felt252::from_u32(0).is_canonical());
    assert!(modulus_minus_one().is_canonical());
    let mut modulus = modulus_minus_one();
    modulus.words[0] = 1;
    assert!(!modulus.is_canonical());
    assert!(!Felt252 { words: [0, 0, 0, 0, 0, 1, 17, 0x0800_0000] }.is_canonical());
    assert!(!Felt252 { words: [0, 0, 0, 0, 0, 0, 18, 0x0800_0000] }.is_canonical());
    assert!(!Felt252 { words: [0, 0, 0, 0, 0, 0, 0, 0x0800_0001] }.is_canonical());
    assert!(!Felt252 { words: [u32::MAX; 8] }.is_canonical());
    assert!(Felt252 { words: [u32::MAX, 9, 9, 9, 9, 9, 16, 0x0800_0000] }.is_canonical());
    assert!(Felt252 { words: [u32::MAX, 9, 9, 9, 9, 9, u32::MAX, 0x07ff_ffff] }.is_canonical());
}

#[test]
fn first_error_of_a_text() {
    assert_eq!(parse("[ a]").err(), Some(SerializationError::EmptyElement));
    assert_eq!(parse("[a ]").err(), Some(SerializationError::UnexpectedByte));
}

fn claims() -> (Claim, InteractionClaim, InteractionClaim) {
    let total = QM31::from_u32(1, 2, 3, 4);
    let claimed = QM31::from_u32(5, 6, 7, 2147483646);
    (
        Claim { n_calls: 1000 },
        InteractionClaim { logup_sums: (total, None) },
        InteractionClaim { logup_sums: (total, Some((claimed, 13))) },
    )
}

fn numbers(elements: &[Felt252]) -> Vec<u64> {
    elements.iter().map(|e| e.to_u64().unwrap()).collect()
}

#[test]
fn elements_of_claims() {
    let (claim, without, with) = claims();
    let mut output = vec![Felt252::from_u32(99)];
    claim.serialize(&mut output);
    assert_eq!(numbers(&output), vec![99, 1000]);
    let mut output = Vec::new();
    without.serialize(&mut output);
    assert_eq!(numbers(&output), vec![1, 2, 3, 4, NONE_TAG]);
    let mut output = Vec::new();
    with.serialize(&mut output);
    assert_eq!(numbers(&output), vec![1, 2, 3, 4, SOME_TAG, 5, 6, 7, 2147483646, 13]);
}

#[test]
fn claims_written_and_read_again() {
    let (claim, without, with) = claims();
    let mut output = Vec::new();
    claim.serialize(&mut output);
    without.serialize(&mut output);
    with.serialize(&mut output);
    let written = format_proof(&output);
    assert_eq!(
        String::from_utf8(written.clone()).unwrap(),
        "[1000 1 2 3 4 1 1 2 3 4 0 5 6 7 2147483646 13]"
    );
    let elements = parse_proof(&written).unwrap();
    let (read_claim, next) = Claim::deserialize(&elements, 0).unwrap();
    assert_eq!(read_claim.n_calls, 1000);
    assert_eq!(next, 1);
    let (read_without, next) = InteractionClaim::deserialize(&elements, next).unwrap();
    assert_eq!(read_without.logup_sums, without.logup_sums);
    assert_eq!(next, 6);
    let (read_with, next) = InteractionClaim::deserialize(&elements, next).unwrap();
    assert_eq!(read_with.logup_sums, with.logup_sums);
    assert_eq!(next, elements.len());
}

#[test]
fn a_proof_cut_short_is_refused() {
    let (claim, _, with) = claims();
    let mut output = Vec::new();
    claim.serialize(&mut output);
    with.serialize(&mut output);
    output.pop();
    let written = format_proof(&output);
    let elements = parse_proof(&written).unwrap();
    let (_, next) = Claim::deserialize(&elements, 0).unwrap();
    assert_eq!(
        InteractionClaim::deserialize(&elements, next).err(),
        Some(DeserializeError::UnexpectedEnd)
    );
    for kept in 0..10 {
        let mut elements = Vec::new();
        with.serialize(&mut elements);
        elements.truncate(kept);
        assert_eq!(
            InteractionClaim::deserialize(&elements, 0).err(),
            Some(DeserializeError::UnexpectedEnd),
            "kept {}",
            kept
        );
    }
    assert_eq!(Claim::deserialize(&Vec::new(), 0).err(), Some(DeserializeError::UnexpectedEnd));
    assert_eq!(
        Claim::deserialize(&vec![Felt252::from_u32(1)], 1).err(),
        Some(DeserializeError::UnexpectedEnd)
    );
}

#[test]
fn elements_that_are_no_claim_are_refused() {
    let too_large = Felt252 { words: [0, 0, 1, 0, 0, 0, 0, 0] };
    assert_eq!(
        Claim::deserialize(&vec![too_large], 0).err(),
        Some(DeserializeError::InvalidValue)
    );
    let m = |v: u32| Felt252::from_u32(v);
    let bad_tag = vec![m(1), m(2), m(3), m(4), m(2)];
    assert_eq!(
        InteractionClaim::deserialize(&bad_tag, 0).err(),
        Some(DeserializeError::InvalidValue)
    );
    let bad_coordinate = vec![m(1), m(2147483647), m(3), m(4), m(1)];
    assert_eq!(
        InteractionClaim::deserialize(&bad_coordinate, 0).err(),
        Some(DeserializeError::InvalidValue)
    );
    let bad_claimed = vec![m(1), m(2), m(3), m(4), m(0), m(1), m(2), m(3), m(u32::MAX), m(1)];
    assert_eq!(
        InteractionClaim::deserialize(&bad_claimed, 0).err(),
        Some(DeserializeError::InvalidValue)
    );
}
