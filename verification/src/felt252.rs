//! Elements of the 252-bit field of the Cairo machine, as eight 32-bit words
//! and as 28 limbs of 9 bits.

use vstd::arithmetic::power2::{lemma2_to64, lemma_pow2_adds, lemma_pow2_pos, pow2};
use vstd::prelude::*;

verus! {

/// The number of 32-bit words of a value.
pub const N_WORDS: usize = 8;

/// The number of 9-bit limbs of a value.
pub const N_LIMBS: usize = 28;

/// The number of bits of a limb.
pub const LIMB_BITS: u32 = 9;

/// The bound of a limb, `2^9`: a value below it is small.
pub const LIMB_BOUND: u32 = 512;

/// The modulus of the field, `2^251 + 17 * 2^192 + 1`.
pub open spec fn modulus() -> int {
    (pow2(251) + 17 * pow2(192) + 1) as int
}

/// The modulus is above `2^251` and below `2^252`.
pub proof fn lemma_modulus_bound()
    ensures
        pow2(251) < modulus() < pow2(252),
{
    lemma_pow2_adds(1, 251);
    lemma_pow2_adds(59, 192);
    lemma2_to64();
    vstd::arithmetic::power2::lemma2_to64_rest();
    lemma_pow2_pos(192);
    let low = pow2(192) as int;
    assert(17 * low + 1 < pow2(59) * low) by (nonlinear_arith)
        requires
            pow2(59) == 0x800000000000000,
            low >= 1,
    ;
}

/// The number that little-endian digits of `bits` bits each stand for.
pub open spec fn positional_value(digits: Seq<int>, bits: nat) -> int
    decreases digits.len(),
{
    if digits.len() == 0 {
        0
    } else {
        positional_value(digits.drop_last(), bits) + digits.last() * pow2(
            bits * (digits.len() - 1) as nat,
        )
    }
}

/// The value of a prefix, one digit longer.
pub proof fn lemma_positional_value_step(digits: Seq<int>, bits: nat, i: int)
    requires
        0 <= i < digits.len(),
    ensures
        positional_value(digits.take(i + 1), bits) == positional_value(digits.take(i), bits)
            + digits[i] * pow2(bits * i as nat),
{
    assert(digits.take(i + 1).drop_last() =~= digits.take(i));
}

/// Digits below their bound stand for a number below the bound of their
/// count.
pub proof fn lemma_positional_value_bound(digits: Seq<int>, bits: nat)
    requires
        forall|i: int| 0 <= i < digits.len() ==> 0 <= #[trigger] digits[i] < pow2(bits),
    ensures
        0 <= positional_value(digits, bits) < pow2(bits * digits.len()),
    decreases digits.len(),
{
    if digits.len() == 0 {
        lemma2_to64();
        assert(bits * 0 == 0) by (nonlinear_arith);
    } else {
        let n = (digits.len() - 1) as nat;
        lemma_positional_value_bound(digits.drop_last(), bits);
        lemma_pow2_adds(bits * n, bits);
        assert(bits * n + bits == bits * digits.len()) by (nonlinear_arith)
            requires
                n + 1 == digits.len(),
        ;
        lemma_pow2_pos(bits * n);
        let high = pow2(bits * n) as int;
        let d = digits.last();
        let b = pow2(bits) as int;
        assert(0 <= d * high) by (nonlinear_arith)
            requires
                0 <= d,
                0 < high,
        ;
        assert(d * high + high <= b * high) by (nonlinear_arith)
            requires
                d + 1 <= b,
                0 < high,
        ;
        assert(pow2(bits * n) * pow2(bits) == b * high) by (nonlinear_arith)
            requires
                high == pow2(bits * n),
                b == pow2(bits),
        ;
    }
}

/// Word `i` of 32 bytes: four bytes, least first.
pub open spec fn le_word(bytes: Seq<u8>, i: int) -> int {
    bytes[4 * i] + bytes[4 * i + 1] * 0x100 + bytes[4 * i + 2] * 0x1_0000 + bytes[4 * i + 3]
        * 0x100_0000
}

/// The number that digits stand for is the first digit and, at the next
/// place, the number that the others stand for.
pub proof fn lemma_positional_value_first(digits: Seq<int>, bits: nat)
    requires
        digits.len() > 0,
    ensures
        positional_value(digits, bits) == digits[0] + pow2(bits) * positional_value(
            digits.drop_first(),
            bits,
        ),
    decreases digits.len(),
{
    let n = digits.len();
    let b = pow2(bits) as int;
    if n == 1 {
        lemma2_to64();
        assert(bits * 0 == 0) by (nonlinear_arith);
        assert(digits.drop_last().len() == 0);
        assert(digits.drop_first().len() == 0);
        assert(positional_value(digits.drop_last(), bits) == 0);
        assert(positional_value(digits.drop_first(), bits) == 0);
        assert(digits.last() == digits[0]);
        assert(positional_value(digits, bits) == 0 + digits[0] * pow2(bits * 0 as nat));
        assert(digits[0] * pow2(0) == digits[0]) by (nonlinear_arith)
            requires
                pow2(0) == 1,
        ;
        assert(b * 0 == 0) by (nonlinear_arith);
    } else {
        let front = digits.drop_last();
        let back = digits.drop_first();
        lemma_positional_value_first(front, bits);
        assert(front.drop_first() =~= back.drop_last());
        assert(front[0] == digits[0]);
        assert(back.last() == digits.last());
        let inner = positional_value(front.drop_first(), bits);
        let last = digits.last();
        let low = pow2(bits * (n - 2) as nat) as int;
        let high = pow2(bits * (n - 1) as nat) as int;
        lemma_pow2_adds(bits, bits * (n - 2) as nat);
        assert(bits + bits * (n - 2) == bits * (n - 1)) by (nonlinear_arith);
        assert(high == b * low);
        assert(positional_value(digits, bits) == positional_value(front, bits) + last * high);
        assert(back.len() - 1 == n - 2);
        assert(positional_value(back, bits) == inner + last * low);
        assert(b * (inner + last * low) == b * inner + last * (b * low)) by (nonlinear_arith);
    }
}

/// The words of a value as digits.
pub open spec fn word_digits(words: Seq<u32>) -> Seq<int> {
    words.map_values(|w: u32| w as int)
}

/// An element of the field, or any other 256-bit number, by its words,
/// least first.
#[derive(Clone, Copy, Debug)]
pub struct Felt252 {
    pub words: [u32; 8],
}

impl View for Felt252 {
    type V = int;

    /// The number that the words stand for.
    open spec fn view(&self) -> int {
        positional_value(word_digits(self.words@), 32)
    }
}

impl Felt252 {
    /// The element with the value `v`.
    pub fn from_u32(v: u32) -> (r: Felt252)
        ensures
            r@ == v,
    {
        let r = Felt252 { words: [v, 0, 0, 0, 0, 0, 0, 0] };
        proof {
            lemma_small_value(r);
        }
        r
    }

    /// The element whose words are those of 32 bytes, least first.
    pub fn from_bytes_le(bytes: &[u8; 32]) -> (r: Felt252)
        ensures
            forall|i: int| 0 <= i < 8 ==> #[trigger] r.words@[i] == le_word(bytes@, i),
    {
        let mut words: [u32; 8] = [0, 0, 0, 0, 0, 0, 0, 0];
        let mut i: usize = 0;
        while i < N_WORDS
            invariant
                0 <= i <= N_WORDS,
                forall|k: int| 0 <= k < i ==> #[trigger] words@[k] == le_word(bytes@, k),
            decreases N_WORDS - i,
        {
            let b0: u32 = bytes[4 * i] as u32;
            let b1: u32 = bytes[4 * i + 1] as u32;
            let b2: u32 = bytes[4 * i + 2] as u32;
            let b3: u32 = bytes[4 * i + 3] as u32;
            words[i] = b0 + b1 * 0x100 + b2 * 0x1_0000 + b3 * 0x100_0000;
            i = i + 1;
        }
        Felt252 { words }
    }

    /// The 28 limbs of a value below `2^252`, least first.
    pub fn to_limbs(&self) -> (limbs: Vec<u32>)
        requires
            self@ < pow2(252),
        ensures
            limbs@.len() == N_LIMBS,
            forall|i: int| 0 <= i < N_LIMBS ==> #[trigger] limbs@[i] < LIMB_BOUND,
            positional_value(word_digits(limbs@), 9) == self@,
    {
        let ghost words = word_digits(self.words@);
        let mut limbs: Vec<u32> = Vec::new();
        // The bits taken from the words and not yet given out as limbs, and
        // the power of two of their number.
        let mut pending: u64 = 0;
        let mut pending_bound: u64 = 1;
        let ghost mut pending_bits: nat = 0;
        let mut i: usize = 0;
        proof {
            lemma2_to64();
            assert(9 * 0 == 0) by (nonlinear_arith);
        }
        while i < N_WORDS
            invariant
                0 <= i <= N_WORDS,
                words == word_digits(self.words@),
                pending_bits < 9,
                pending_bound == pow2(pending_bits),
                pending < pending_bound,
                32 * i == 9 * limbs@.len() + pending_bits,
                forall|k: int| 0 <= k < limbs@.len() ==> #[trigger] limbs@[k] < LIMB_BOUND,
                positional_value(words.take(i as int), 32) == positional_value(
                    word_digits(limbs@),
                    9,
                ) + pending * pow2(9 * limbs@.len()),
            decreases N_WORDS - i,
        {
            let word: u64 = self.words[i] as u64;
            proof {
                let m = limbs@.len();
                lemma2_to64();
                lemma_positional_value_step(words, 32, i as int);
                lemma_pow2_adds(pending_bits, 9 * m);
                lemma_pow2_adds(pending_bits, 32);
                vstd::arithmetic::power2::lemma_pow2_strictly_increases(pending_bits, 9);
                let low = pow2(9 * m) as int;
                let b = pending_bound as int;
                assert(pow2(32 * i as nat) == b * low);
                assert(word * (b * low) == (word * b) * low) by (nonlinear_arith);
                assert(pending * low + (word * b) * low == (pending + word * b) * low)
                    by (nonlinear_arith);
                assert(word * b <= 0xffff_ffff * 511) by (nonlinear_arith)
                    requires
                        0 <= word <= 0xffff_ffff,
                        0 <= b <= 511,
                ;
                assert(pending + word * b < pow2(pending_bits + 32)) by (nonlinear_arith)
                    requires
                        pending < b,
                        word <= 0xffff_ffff,
                        pow2(pending_bits + 32) == b * 0x1_0000_0000,
                ;
            }
            pending = pending + word * pending_bound;
            proof {
                pending_bits = pending_bits + 32;
                assert(pending_bound * 0x1_0000_0000 == pow2(pending_bits));
                vstd::arithmetic::power2::lemma_pow2_strictly_increases(9, pending_bits);
            }
            pending_bound = pending_bound * 0x1_0000_0000;
            i = i + 1;
            while pending_bound >= 512
                invariant
                    0 <= i <= N_WORDS,
                    pending_bits < 9 + 32,
                    pending_bits >= 9 ==> pending_bound >= 512,
                    pending_bound == pow2(pending_bits),
                    pending < pending_bound,
                    32 * i == 9 * limbs@.len() + pending_bits,
                    forall|k: int| 0 <= k < limbs@.len() ==> #[trigger] limbs@[k] < LIMB_BOUND,
                    positional_value(words.take(i as int), 32) == positional_value(
                        word_digits(limbs@),
                        9,
                    ) + pending * pow2(9 * limbs@.len()),
                ensures
                    pending_bits < 9,
                decreases pending_bound,
            {
                let limb: u32 = (pending % 512) as u32;
                let rest: u64 = pending / 512;
                proof {
                    let m = limbs@.len();
                    lemma2_to64();
                    if pending_bits < 9 {
                        vstd::arithmetic::power2::lemma_pow2_strictly_increases(pending_bits, 9);
                    }
                    lemma_pow2_adds(9, (pending_bits - 9) as nat);
                    lemma_pow2_adds(9, 9 * m);
                    assert(9 + 9 * m == 9 * (m + 1)) by (nonlinear_arith);
                    let low = pow2(9 * m) as int;
                    let next = limbs@.push(limb);
                    assert(word_digits(next).drop_last() =~= word_digits(limbs@));
                    assert(limb * low + rest * (512 * low) == (limb + 512 * rest) * low)
                        by (nonlinear_arith);
                    let bound = pow2((pending_bits - 9) as nat) as int;
                    assert(rest < bound) by (nonlinear_arith)
                        requires
                            pending < 512 * bound,
                            rest == pending / 512,
                    ;
                    assert(pending_bound / 512 == bound) by (nonlinear_arith)
                        requires
                            pending_bound == 512 * bound,
                    ;
                    pending_bits = (pending_bits - 9) as nat;
                    if pending_bits > 9 {
                        vstd::arithmetic::power2::lemma_pow2_strictly_increases(9, pending_bits);
                    }
                }
                limbs.push(limb);
                pending = rest;
                pending_bound = pending_bound / 512;
            }
        }
        proof {
            assert(words.take(8) =~= words);
            assert(pending_bits == 4 && limbs@.len() == 28);
            let low = pow2(252) as int;
            lemma_pow2_pos(252);
            if pending > 0 {
                assert(pending * low >= low) by (nonlinear_arith)
                    requires
                        pending >= 1,
                        low > 0,
                ;
                lemma_positional_value_bound(word_digits(limbs@), 9);
                assert(false);
            }
            assert(pending * low == 0) by (nonlinear_arith)
                requires
                    pending == 0,
            ;
        }
        limbs
    }

    /// The element with the value `v`.
    pub fn from_u64(v: u64) -> (r: Felt252)
        ensures
            r@ == v,
    {
        let low: u32 = (v % 0x1_0000_0000) as u32;
        let high: u32 = (v / 0x1_0000_0000) as u32;
        let r = Felt252 { words: [low, high, 0, 0, 0, 0, 0, 0] };
        proof {
            lemma_words_value(r);
            assert(r.words@[0] == low && r.words@[1] == high);
            assert forall|k: int| 2 <= k < 8 implies #[trigger] r.words@[k] * pow2(
                (32 * k) as nat,
            ) == 0 by {
                assert(r.words@[k] == 0);
                assert(0 * pow2((32 * k) as nat) == 0) by (nonlinear_arith);
            }
            assert(r.words@[2] * pow2(64) == 0);
            assert(r.words@[3] * pow2(96) == 0);
            assert(r.words@[4] * pow2(128) == 0);
            assert(r.words@[5] * pow2(160) == 0);
            assert(r.words@[6] * pow2(192) == 0);
            assert(r.words@[7] * pow2(224) == 0);
            assert(high * pow2(32) == high * 0x1_0000_0000);
        }
        r
    }

    /// The value as a 64-bit number, where it is one.
    pub fn to_u64(&self) -> (r: Option<u64>)
        ensures
            r is Some <==> self@ <= u64::MAX,
            r matches Some(v) ==> v == self@,
    {
        proof {
            lemma_words_value(*self);
            lemma_value_dominates(*self);
            lemma2_to64();
            assert forall|k: int| 2 <= k < 8 implies #[trigger] self.words@[k] * pow2(
                (32 * k) as nat,
            ) >= self.words@[k] * 0x1_0000_0000_0000_0000 by {
                if k > 2 {
                    vstd::arithmetic::power2::lemma_pow2_strictly_increases(64, (32 * k) as nat);
                }
                let w = self.words@[k] as int;
                let p = pow2((32 * k) as nat) as int;
                assert(w * p >= w * 0x1_0000_0000_0000_0000) by (nonlinear_arith)
                    requires
                        w >= 0,
                        p >= 0x1_0000_0000_0000_0000,
                ;
            }
            assert(self.words@[2] * pow2(64) >= self.words@[2] * 0x1_0000_0000_0000_0000);
            assert(self.words@[3] * pow2(96) >= self.words@[3] * 0x1_0000_0000_0000_0000);
            assert(self.words@[4] * pow2(128) >= self.words@[4] * 0x1_0000_0000_0000_0000);
            assert(self.words@[5] * pow2(160) >= self.words@[5] * 0x1_0000_0000_0000_0000);
            assert(self.words@[6] * pow2(192) >= self.words@[6] * 0x1_0000_0000_0000_0000);
            assert(self.words@[7] * pow2(224) >= self.words@[7] * 0x1_0000_0000_0000_0000);
        }
        if self.words[2] == 0 && self.words[3] == 0 && self.words[4] == 0 && self.words[5] == 0
            && self.words[6] == 0 && self.words[7] == 0 {
            Some(self.words[0] as u64 + (self.words[1] as u64) * 0x1_0000_0000)
        } else {
            None
        }
    }

    /// Whether the value is an element of the field: below the modulus.
    pub fn is_canonical(&self) -> (r: bool)
        ensures
            r == (self@ < modulus()),
    {
        proof {
            lemma_words_value(*self);
            lemma_pow2_adds(27, 224);
            lemma2_to64();
            let w = self.words@;
            let d = word_digits(w);
            assert forall|k: int| 0 <= k < 8 implies 0 <= #[trigger] d[k] < pow2(32) by {}
            // The first six words stand for a number below 2^192, the
            // first seven for one below 2^224.
            lemma_positional_value_bound(d.take(6), 32);
            lemma_positional_value_bound(d.take(7), 32);
            lemma_positional_value_step(d, 32, 6);
            lemma_positional_value_step(d, 32, 7);
            assert(d.take(8) =~= d);
            assert(32 * 6 == 192 && 32 * 7 == 224);
            let low = positional_value(d.take(6), 32);
            let p192 = pow2(192) as int;
            let p224 = pow2(224) as int;
            lemma_pow2_adds(32, 192);
            assert(p224 == 0x1_0000_0000 * p192);
            let w6 = w[6] as int;
            let w7 = w[7] as int;
            assert(self@ == low + w6 * p192 + w7 * p224);
            assert(modulus() == 1 + 17 * p192 + 0x0800_0000 * p224);
            if w7 < 0x0800_0000 {
                assert(w7 * p224 + p224 <= 0x0800_0000 * p224) by (nonlinear_arith)
                    requires
                        w7 + 1 <= 0x0800_0000,
                        p224 >= 0,
                ;
            } else if w7 > 0x0800_0000 {
                assert(w7 * p224 >= 0x0800_0000 * p224 + p224) by (nonlinear_arith)
                    requires
                        w7 >= 0x0800_0000 + 1,
                        p224 >= 0,
                ;
                assert(17 * p192 + 1 < 0x1_0000_0000 * p192) by (nonlinear_arith)
                    requires
                        p192 >= 1,
                ;
                assert(w6 * p192 >= 0) by (nonlinear_arith)
                    requires
                        w6 >= 0,
                        p192 >= 0,
                ;
            } else if w6 < 17 {
                assert(w6 * p192 + p192 <= 17 * p192) by (nonlinear_arith)
                    requires
                        w6 + 1 <= 17,
                        p192 >= 0,
                ;
            } else if w6 > 17 {
                assert(w6 * p192 >= 17 * p192 + p192) by (nonlinear_arith)
                    requires
                        w6 >= 18,
                        p192 >= 0,
                ;
            } else {
                // The value is below the modulus where the first six
                // words are zero.
                lemma_positional_value_step(d, 32, 0);
                lemma_positional_value_step(d, 32, 1);
                lemma_positional_value_step(d, 32, 2);
                lemma_positional_value_step(d, 32, 3);
                lemma_positional_value_step(d, 32, 4);
                lemma_positional_value_step(d, 32, 5);
                assert(positional_value(d.take(0), 32) == 0);
                assert forall|k: int| 0 <= k < 6 implies #[trigger] d[k] * pow2((32 * k) as nat)
                    >= d[k] by {
                    lemma_pow2_pos((32 * k) as nat);
                    let x = d[k];
                    let y = pow2((32 * k) as nat) as int;
                    assert(x * y >= x) by (nonlinear_arith)
                        requires
                            x >= 0,
                            y >= 1,
                    ;
                }
                assert(d[0] * pow2(0) >= d[0]);
                assert(d[1] * pow2(32) >= d[1]);
                assert(d[2] * pow2(64) >= d[2]);
                assert(d[3] * pow2(96) >= d[3]);
                assert(d[4] * pow2(128) >= d[4]);
                assert(d[5] * pow2(160) >= d[5]);
                if w[0] == 0 && w[1] == 0 && w[2] == 0 && w[3] == 0 && w[4] == 0 && w[5] == 0 {
                    assert forall|k: int| 0 <= k < 6 implies #[trigger] d[k] * pow2(
                        (32 * k) as nat,
                    ) == 0 by {
                        assert(0 * pow2((32 * k) as nat) == 0) by (nonlinear_arith);
                    }
                    assert(d[0] * pow2(0) == 0);
                    assert(d[1] * pow2(32) == 0);
                    assert(d[2] * pow2(64) == 0);
                    assert(d[3] * pow2(96) == 0);
                    assert(d[4] * pow2(128) == 0);
                    assert(d[5] * pow2(160) == 0);
                }
            }
        }
        if self.words[7] != 0x0800_0000 {
            self.words[7] < 0x0800_0000
        } else if self.words[6] != 17 {
            self.words[6] < 17
        } else {
            self.words[0] == 0 && self.words[1] == 0 && self.words[2] == 0 && self.words[3] == 0
                && self.words[4] == 0 && self.words[5] == 0
        }
    }

    /// Whether the value is zero.
    pub fn is_zero(&self) -> (r: bool)
        ensures
            r == (self@ == 0),
    {
        proof {
            lemma_value_dominates(*self);
            if forall|k: int| 1 <= k < 8 ==> self.words@[k] == 0 {
                lemma_small_value(*self);
            }
        }
        self.words[0] == 0 && self.words[1] == 0 && self.words[2] == 0 && self.words[3] == 0
            && self.words[4] == 0 && self.words[5] == 0 && self.words[6] == 0 && self.words[7]
            == 0
    }

    /// The quotient and the remainder of the value by ten.
    pub fn div_rem_10(&self) -> (r: (Felt252, u32))
        ensures
            self@ == 10 * r.0@ + r.1,
            r.1 < 10,
            r.0@ >= 0,
    {
        let ghost words = word_digits(self.words@);
        let mut quotient: [u32; 8] = [0, 0, 0, 0, 0, 0, 0, 0];
        let mut remainder: u64 = 0;
        let mut i: usize = N_WORDS;
        assert(words.skip(8).len() == 0);
        assert(word_digits(quotient@).skip(8).len() == 0);
        while i > 0
            invariant
                0 <= i <= N_WORDS,
                words == word_digits(self.words@),
                remainder < 10,
                positional_value(words.skip(i as int), 32) == 10 * positional_value(
                    word_digits(quotient@).skip(i as int),
                    32,
                ) + remainder,
            decreases i,
        {
            let ghost before = word_digits(quotient@);
            let current: u64 = remainder * 0x1_0000_0000 + self.words[i - 1] as u64;
            quotient[i - 1] = (current / 10) as u32;
            remainder = current % 10;
            proof {
                let after = word_digits(quotient@);
                lemma2_to64();
                lemma_positional_value_first(words.skip(i - 1), 32);
                lemma_positional_value_first(after.skip(i - 1), 32);
                assert(words.skip(i - 1).drop_first() =~= words.skip(i as int));
                assert(after.skip(i - 1).drop_first() =~= before.skip(i as int));
            }
            i = i - 1;
        }
        let r = Felt252 { words: quotient };
        proof {
            assert(words.skip(0) =~= words);
            assert(word_digits(quotient@).skip(0) =~= word_digits(quotient@));
            lemma_value_dominates(r);
        }
        (r, remainder as u32)
    }

    /// Ten times the value and a digit more, where that is below `2^256`.
    pub fn mul_10_add(&self, digit: u32) -> (r: Option<Felt252>)
        requires
            digit < 10,
        ensures
            r is Some <==> 10 * self@ + digit < pow2(256),
            r matches Some(v) ==> v@ == 10 * self@ + digit,
    {
        let ghost words = word_digits(self.words@);
        let mut result: [u32; 8] = [0, 0, 0, 0, 0, 0, 0, 0];
        let mut carry: u64 = digit as u64;
        let mut i: usize = 0;
        proof {
            lemma2_to64();
            assert(32 * 0 == 0) by (nonlinear_arith);
            assert(carry * pow2(0) == carry) by (nonlinear_arith)
                requires
                    pow2(0) == 1,
            ;
        }
        while i < N_WORDS
            invariant
                0 <= i <= N_WORDS,
                words == word_digits(self.words@),
                digit < 10,
                carry < 10,
                positional_value(word_digits(result@).take(i as int), 32) + carry * pow2(
                    (32 * i) as nat,
                ) == 10 * positional_value(words.take(i as int), 32) + digit,
            decreases N_WORDS - i,
        {
            let ghost before = word_digits(result@);
            let current: u64 = 10 * (self.words[i] as u64) + carry;
            result[i] = (current % 0x1_0000_0000) as u32;
            let ghost carry_in = carry;
            carry = current / 0x1_0000_0000;
            proof {
                let after = word_digits(result@);
                lemma2_to64();
                lemma_positional_value_step(words, 32, i as int);
                lemma_positional_value_step(after, 32, i as int);
                assert(after.take(i as int) =~= before.take(i as int));
                lemma_pow2_adds(32, (32 * i) as nat);
                let w = pow2((32 * i) as nat) as int;
                let word = self.words@[i as int] as int;
                let low = after[i as int];
                assert(low + 0x1_0000_0000 * carry == 10 * word + carry_in);
                assert(low * w + carry * (0x1_0000_0000 * w) == (10 * word + carry_in) * w)
                    by (nonlinear_arith)
                    requires
                        low + 0x1_0000_0000 * carry == 10 * word + carry_in,
                ;
                assert((10 * word + carry_in) * w == 10 * (word * w) + carry_in * w)
                    by (nonlinear_arith);
            }
            i = i + 1;
        }
        let r = Felt252 { words: result };
        proof {
            assert(words.take(8) =~= words);
            assert(word_digits(result@).take(8) =~= word_digits(result@));
            lemma2_to64();
            assert forall|k: int| 0 <= k < 8 implies 0 <= #[trigger] word_digits(result@)[k]
                < pow2(32) by {}
            lemma_positional_value_bound(word_digits(result@), 32);
            lemma_pow2_pos(256);
            let top = pow2(256) as int;
            assert(carry * top >= top || carry == 0) by (nonlinear_arith)
                requires
                    carry >= 0,
                    top > 0,
            ;
            assert(carry == 0 ==> carry * top == 0) by (nonlinear_arith);
        }
        if carry == 0 {
            Some(r)
        } else {
            None
        }
    }

    /// Whether two elements hold the same words.
    pub fn same(&self, other: &Felt252) -> (r: bool)
        ensures
            r == (self.words@ == other.words@),
    {
        let mut i: usize = 0;
        while i < N_WORDS
            invariant
                0 <= i <= N_WORDS,
                forall|k: int| 0 <= k < i ==> self.words@[k] == other.words@[k],
            decreases N_WORDS - i,
        {
            if self.words[i] != other.words[i] {
                return false;
            }
            i = i + 1;
        }
        assert(self.words@ =~= other.words@);
        true
    }

    /// Whether the value fits one limb.
    pub fn is_small(&self) -> (r: bool)
        ensures
            r == (self@ < LIMB_BOUND),
    {
        proof {
            lemma_value_dominates(*self);
            if forall|k: int| 1 <= k < 8 ==> self.words@[k] == 0 {
                lemma_small_value(*self);
            }
        }
        self.words[0] < LIMB_BOUND && self.words[1] == 0 && self.words[2] == 0 && self.words[3]
            == 0 && self.words[4] == 0 && self.words[5] == 0 && self.words[6] == 0 && self.words[7]
            == 0
    }
}

/// The value of eight words, written out.
pub proof fn lemma_words_value(x: Felt252)
    ensures
        x@ == x.words@[0] + x.words@[1] * pow2(32) + x.words@[2] * pow2(64) + x.words@[3] * pow2(96)
            + x.words@[4] * pow2(128) + x.words@[5] * pow2(160) + x.words@[6] * pow2(192)
            + x.words@[7] * pow2(224),
        pow2(32) == 0x1_0000_0000,
        forall|k: nat| #![trigger pow2(k)] pow2(k) > 0,
{
    let d = word_digits(x.words@);
    assert(d.take(8) =~= d);
    lemma_positional_value_step(d, 32, 0);
    lemma_positional_value_step(d, 32, 1);
    lemma_positional_value_step(d, 32, 2);
    lemma_positional_value_step(d, 32, 3);
    lemma_positional_value_step(d, 32, 4);
    lemma_positional_value_step(d, 32, 5);
    lemma_positional_value_step(d, 32, 6);
    lemma_positional_value_step(d, 32, 7);
    assert(positional_value(d.take(0), 32) == 0);
    lemma2_to64();
    assert(d[0] * pow2(0) == d[0]) by (nonlinear_arith)
        requires
            pow2(0) == 1,
    ;
    assert forall|k: nat| #![trigger pow2(k)] pow2(k) > 0 by {
        lemma_pow2_pos(k);
    }
}

/// A value is at least its first word, and at least `2^32` times the sum of
/// the others.
pub proof fn lemma_value_dominates(x: Felt252)
    ensures
        x@ >= x.words@[0] + 0x1_0000_0000 * (x.words@[1] + x.words@[2] + x.words@[3] + x.words@[4]
            + x.words@[5] + x.words@[6] + x.words@[7]),
{
    lemma_words_value(x);
    assert forall|k: int| 1 <= k < 8 implies #[trigger] x.words@[k] * pow2((32 * k) as nat)
        >= x.words@[k] * 0x1_0000_0000 by {
        if k > 1 {
            vstd::arithmetic::power2::lemma_pow2_strictly_increases(32, (32 * k) as nat);
        }
        let w = x.words@[k] as int;
        let p = pow2((32 * k) as nat) as int;
        assert(w * p >= w * 0x1_0000_0000) by (nonlinear_arith)
            requires
                w >= 0,
                p >= 0x1_0000_0000,
        ;
    }
    assert(x.words@[1] * pow2(32) >= x.words@[1] * 0x1_0000_0000);
    assert(x.words@[2] * pow2(64) >= x.words@[2] * 0x1_0000_0000);
    assert(x.words@[3] * pow2(96) >= x.words@[3] * 0x1_0000_0000);
    assert(x.words@[4] * pow2(128) >= x.words@[4] * 0x1_0000_0000);
    assert(x.words@[5] * pow2(160) >= x.words@[5] * 0x1_0000_0000);
    assert(x.words@[6] * pow2(192) >= x.words@[6] * 0x1_0000_0000);
    assert(x.words@[7] * pow2(224) >= x.words@[7] * 0x1_0000_0000);
}

/// A value whose words but the first are zero is its first word.
pub proof fn lemma_small_value(x: Felt252)
    requires
        forall|k: int| 1 <= k < 8 ==> x.words@[k] == 0,
    ensures
        x@ == x.words@[0],
{
    lemma_words_value(x);
}

} // verus!
