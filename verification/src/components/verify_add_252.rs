//! What the constraints of the `add` opcode say of a row over the base
//! field: that its third operand is the sum of the other two in the 252-bit
//! field.

use vstd::arithmetic::div_mod::{
    lemma_add_mod_noop, lemma_mod_multiples_vanish, lemma_mul_mod_noop_right, lemma_small_mod,
    lemma_sub_mod_noop,
};
use vstd::arithmetic::power2::{lemma2_to64, lemma_pow2_adds, pow2};
use vstd::prelude::*;

use crate::components::add_opcode_is_small_f_is_imm_t::{
    bit_constraint, carry, carry_constraint, constraints, limb_excess, modulus_limb, DST_LIMBS,
    N_CONSTRAINTS, N_LIMBS, N_TRACE_COLUMNS, OP0_LIMBS, OP1_LIMBS, SUB_P_BIT,
};
use crate::felt252::{
    lemma_modulus_bound, lemma_positional_value_step, modulus, positional_value,
};
use crate::m31::{M31, P};

verus! {

/// `x` and `y` have the same residue in the base field.
pub open spec fn congruent(x: int, y: int) -> bool {
    x % (P as int) == y % (P as int)
}

/// The element is zero or one.
pub open spec fn is_bit(x: M31) -> bool {
    x@ == 0 || x@ == 1
}

/// The element is zero, one or minus one.
pub open spec fn is_carry(x: M31) -> bool {
    x@ == 0 || x@ == 1 || x@ == P - 1
}

/// The integer that a carry stands for.
pub open spec fn signed(x: M31) -> int {
    if x@ == P - 1 {
        -1
    } else {
        x@
    }
}

/// The 28 limbs of an operand of a row, from column `start` on.
pub open spec fn operand_limbs(row: Seq<M31>, start: int) -> Seq<int> {
    Seq::new(N_LIMBS as nat, |i: int| row[start + i]@)
}

/// The limbs of the modulus.
pub open spec fn modulus_limbs() -> Seq<int> {
    Seq::new(N_LIMBS as nat, |i: int| modulus_limb(i))
}

/// The number that the limbs of an operand stand for.
pub open spec fn operand(row: Seq<M31>, start: int) -> int {
    positional_value(operand_limbs(row, start), 9)
}

/// Every limb of the three operands is below `2^9`.
pub open spec fn limbs_in_range(row: Seq<M31>) -> bool {
    forall|i: int|
        0 <= i < N_LIMBS ==> {
            &&& 0 <= (#[trigger] row[DST_LIMBS + i])@ < 512
            &&& 0 <= (#[trigger] row[OP0_LIMBS + i])@ < 512
            &&& 0 <= (#[trigger] row[OP1_LIMBS + i])@ < 512
        }
}

/// The carry into limb `i`.
pub open spec fn carry_into(row: Seq<M31>, i: int) -> M31 {
    if i <= 0 {
        M31::of(0)
    } else {
        carry(row, i - 1)
    }
}

/// The row meets what its constraints ask for: the overflow flag is a bit,
/// each carry is zero, one or minus one, and the last limb has no excess.
/// Each constraint is a product that vanishes on these values, and in a
/// field on no others.
pub open spec fn satisfied(row: Seq<M31>) -> bool {
    &&& is_bit(row[SUB_P_BIT as int])
    &&& forall|i: int| 0 <= i < N_LIMBS - 1 ==> is_carry(#[trigger] carry(row, i))
    &&& limb_excess(row, N_LIMBS - 1, carry(row, N_LIMBS - 2))@ == 0
}

proof fn lemma_congruent_zero(x: int)
    requires
        congruent(x, 0),
        -(P as int) < x < P,
    ensures
        x == 0,
{
    if x > 0 {
        lemma_small_mod(x as nat, P as nat);
    } else if x < 0 {
        lemma_mod_multiples_vanish(1, x, P as int);
        lemma_small_mod((x + P) as nat, P as nat);
    }
}

/// The excess of a limb has the residue of the sum of the limbs of the two
/// operands and the carry in, less the limb of the result and, where the
/// flag is set, the limb of the modulus.
proof fn lemma_excess_residue(row: Seq<M31>, i: int, carry_in: M31)
    requires
        row.len() == N_TRACE_COLUMNS,
        0 <= i < N_LIMBS,
    ensures
        congruent(
            limb_excess(row, i, carry_in)@,
            row[OP0_LIMBS + i]@ + row[OP1_LIMBS + i]@ + carry_in@ - row[DST_LIMBS + i]@
                - modulus_limb(i) * row[SUB_P_BIT as int]@,
        ),
{
    broadcast use M31::lemma_of;

    let p = P as int;
    let a = row[OP0_LIMBS + i]@;
    let b = row[OP1_LIMBS + i]@;
    let c = carry_in@;
    let d = row[DST_LIMBS + i]@;
    let s = row[SUB_P_BIT as int]@;
    let m = modulus_limb(i);
    let x1 = (a + b) % p;
    let x2 = (x1 + c) % p;
    let x3 = (x2 - d) % p;
    let correction = ((m % p) * s) % p;
    let x4 = (x3 - correction) % p;
    assert(limb_excess(row, i, carry_in)@ == x4);
    assert(m % p == m);
    lemma_add_mod_noop(x1, c, p);
    lemma_add_mod_noop(a + b, c, p);
    assert(x1 % p == (a + b) % p) by {
        vstd::arithmetic::div_mod::lemma_mod_twice(a + b, p);
    }
    assert(x2 == (a + b + c) % p);
    lemma_sub_mod_noop(x2, d, p);
    lemma_sub_mod_noop(a + b + c, d, p);
    vstd::arithmetic::div_mod::lemma_mod_twice(a + b + c, p);
    assert(x3 == (a + b + c - d) % p);
    lemma_sub_mod_noop(x3, correction, p);
    lemma_sub_mod_noop(a + b + c - d, m * s, p);
    vstd::arithmetic::div_mod::lemma_mod_twice(a + b + c - d, p);
    vstd::arithmetic::div_mod::lemma_mod_twice(m * s, p);
    assert(x4 == (a + b + c - d - m * s) % p);
    vstd::arithmetic::div_mod::lemma_mod_twice(a + b + c - d - m * s, p);
}

/// A carry times `2^9` has the residue of the excess that it was made of.
proof fn lemma_carry_residue(row: Seq<M31>, i: int)
    requires
        row.len() == N_TRACE_COLUMNS,
        0 <= i < N_LIMBS - 1,
    ensures
        congruent(512 * carry(row, i)@, limb_excess(row, i, carry_into(row, i))@),
{
    broadcast use M31::lemma_of;

    let p = P as int;
    let e = limb_excess(row, i, carry_into(row, i))@;
    let k = carry(row, i)@;
    assert(4194304int % p == 4194304);
    assert(k == (e * 4194304) % p);
    lemma_mul_mod_noop_right(512, e * 4194304, p);
    assert(512 * (e * 4194304) == p * e + e) by (nonlinear_arith)
        requires
            p == 2147483647,
    ;
    lemma_mod_multiples_vanish(e, e, p);
}

/// What the constraints say of one limb, over the integers: the sum of the
/// limbs of the two operands and the carry in is the limb of the result and,
/// where the flag is set, the limb of the modulus, and `2^9` times the carry
/// out.
proof fn lemma_limb_equation(row: Seq<M31>, i: int)
    requires
        row.len() == N_TRACE_COLUMNS,
        limbs_in_range(row),
        satisfied(row),
        0 <= i < N_LIMBS,
    ensures
        row[OP0_LIMBS + i]@ + row[OP1_LIMBS + i]@ + signed(carry_into(row, i)) == row[DST_LIMBS
            + i]@ + modulus_limb(i) * row[SUB_P_BIT as int]@ + if i < N_LIMBS - 1 {
            512 * signed(carry(row, i))
        } else {
            0
        },
{
    broadcast use M31::lemma_of;

    let p = P as int;
    let carry_in = carry_into(row, i);
    let a = row[OP0_LIMBS + i]@;
    let b = row[OP1_LIMBS + i]@;
    let d = row[DST_LIMBS + i]@;
    let s = row[SUB_P_BIT as int]@;
    let m = modulus_limb(i);
    assert(0 <= row[DST_LIMBS + i]@ < 512);
    assert(0 <= row[OP0_LIMBS + i]@ < 512);
    assert(0 <= row[OP1_LIMBS + i]@ < 512);
    if i > 0 {
        assert(is_carry(carry(row, i - 1)));
    }
    let c_in = signed(carry_in);
    assert(congruent(carry_in@, c_in)) by {
        if carry_in@ == P - 1 {
            lemma_mod_multiples_vanish(1, -1, p);
        }
    }
    let e = limb_excess(row, i, carry_in)@;
    lemma_excess_residue(row, i, carry_in);
    let t_field = a + b + carry_in@ - d - m * s;
    let t = a + b + c_in - d - m * s;
    assert(congruent(t_field, t)) by {
        lemma_add_mod_noop(a + b - d - m * s, carry_in@, p);
        lemma_add_mod_noop(a + b - d - m * s, c_in, p);
    }
    assert(m * s == 0 || m * s == m) by (nonlinear_arith)
        requires
            s == 0 || s == 1,
    ;
    if i < N_LIMBS - 1 {
        let k = carry(row, i)@;
        let c = signed(carry(row, i));
        assert(is_carry(carry(row, i)));
        lemma_carry_residue(row, i);
        assert(congruent(512 * k, 512 * c)) by {
            if k == P - 1 {
                lemma_mod_multiples_vanish(512, -512, p);
            }
        }
        assert(congruent(t - 512 * c, 0)) by {
            lemma_sub_mod_noop(t, 512 * c, p);
        }
        lemma_congruent_zero(t - 512 * c);
    } else {
        assert(e == 0);
        lemma_congruent_zero(t);
    }
}

/// The number that the first `i` limbs of the modulus stand for.
spec fn modulus_prefix(i: int) -> int {
    (if i > 0 {
        1int
    } else {
        0
    }) + (if i > 21 {
        136 * pow2(189)
    } else {
        0
    }) + (if i > 27 {
        256 * pow2(243)
    } else {
        0
    })
}

proof fn lemma_modulus_prefix(i: int)
    requires
        0 <= i <= N_LIMBS,
    ensures
        positional_value(modulus_limbs().take(i), 9) == modulus_prefix(i),
    decreases i,
{
    if i > 0 {
        lemma_modulus_prefix(i - 1);
        lemma_positional_value_step(modulus_limbs(), 9, i - 1);
        let w = pow2((9 * (i - 1)) as nat) as int;
        lemma2_to64();
        assert(0 * w == 0) by (nonlinear_arith);
        assert(1 * w == w) by (nonlinear_arith);
    }
}

/// The sum of the first `i` limbs of the two operands is that of the result
/// and, where the flag is set, the modulus, and the carry into limb `i` at
/// its place.
proof fn lemma_prefix_sums(row: Seq<M31>, i: int)
    requires
        row.len() == N_TRACE_COLUMNS,
        limbs_in_range(row),
        satisfied(row),
        0 <= i <= N_LIMBS,
    ensures
        positional_value(operand_limbs(row, OP0_LIMBS as int).take(i), 9) + positional_value(
            operand_limbs(row, OP1_LIMBS as int).take(i),
            9,
        ) == positional_value(operand_limbs(row, DST_LIMBS as int).take(i), 9)
            + row[SUB_P_BIT as int]@ * positional_value(modulus_limbs().take(i), 9) + if i
            < N_LIMBS {
            signed(carry_into(row, i)) * pow2((9 * i) as nat)
        } else {
            0
        },
    decreases i,
{
    broadcast use M31::lemma_of;

    let s = row[SUB_P_BIT as int]@;
    if i == 0 {
        lemma2_to64();
        assert(s * 0 == 0) by (nonlinear_arith);
        assert(0 * pow2(0) == 0) by (nonlinear_arith);
    } else {
        let j = i - 1;
        lemma_prefix_sums(row, j);
        lemma_limb_equation(row, j);
        lemma_positional_value_step(operand_limbs(row, OP0_LIMBS as int), 9, j);
        lemma_positional_value_step(operand_limbs(row, OP1_LIMBS as int), 9, j);
        lemma_positional_value_step(operand_limbs(row, DST_LIMBS as int), 9, j);
        lemma_positional_value_step(modulus_limbs(), 9, j);
        let w = pow2((9 * j) as nat) as int;
        let a = row[OP0_LIMBS + j]@;
        let b = row[OP1_LIMBS + j]@;
        let d = row[DST_LIMBS + j]@;
        let m = modulus_limb(j);
        let c_in = signed(carry_into(row, j));
        let out = if j < N_LIMBS - 1 {
            512 * signed(carry(row, j))
        } else {
            0
        };
        assert(a + b + c_in == d + m * s + out);
        let before = positional_value(modulus_limbs().take(j), 9);
        assert(a * w + b * w + c_in * w == d * w + s * (m * w) + out * w) by (nonlinear_arith)
            requires
                a + b + c_in == d + m * s + out,
        ;
        assert(s * (before + m * w) == s * before + s * (m * w)) by (nonlinear_arith);
        if i < N_LIMBS {
            lemma_pow2_adds(9, (9 * j) as nat);
            lemma2_to64();
            let c = signed(carry(row, j));
            assert((512 * c) * w == c * (512 * w)) by (nonlinear_arith);
            assert(carry_into(row, i) == carry(row, j));
        } else {
            assert(out * w == 0) by (nonlinear_arith)
                requires
                    out == 0,
            ;
        }
    }
}

/// A row that meets its constraints, with limbs in range, holds a true
/// addition in the 252-bit field: the two operands sum to the result, and to
/// the modulus more where the overflow flag is set.
pub proof fn lemma_constraints_force_the_sum(row: Seq<M31>)
    requires
        row.len() == N_TRACE_COLUMNS,
        limbs_in_range(row),
        satisfied(row),
    ensures
        operand(row, OP0_LIMBS as int) + operand(row, OP1_LIMBS as int) == operand(
            row,
            DST_LIMBS as int,
        ) + row[SUB_P_BIT as int]@ * modulus(),
{
    lemma_prefix_sums(row, N_LIMBS as int);
    lemma_modulus_prefix(N_LIMBS as int);
    assert(operand_limbs(row, OP0_LIMBS as int).take(N_LIMBS as int) =~= operand_limbs(
        row,
        OP0_LIMBS as int,
    ));
    assert(operand_limbs(row, OP1_LIMBS as int).take(N_LIMBS as int) =~= operand_limbs(
        row,
        OP1_LIMBS as int,
    ));
    assert(operand_limbs(row, DST_LIMBS as int).take(N_LIMBS as int) =~= operand_limbs(
        row,
        DST_LIMBS as int,
    ));
    lemma_pow2_adds(3, 189);
    lemma_pow2_adds(8, 243);
    lemma2_to64();
    assert(136 * pow2(189) == 17 * (8 * pow2(189))) by (nonlinear_arith);
}

/// A row that meets what its constraints ask for has every constraint zero.
pub proof fn lemma_satisfied_rows_vanish(row: Seq<M31>)
    requires
        row.len() == N_TRACE_COLUMNS,
        satisfied(row),
    ensures
        forall|k: int| 0 <= k < N_CONSTRAINTS ==> (#[trigger] constraints(row)[k])@ == 0,
{
    broadcast use M31::lemma_of;

    let p = P as int;
    assert forall|k: int| 0 <= k < N_CONSTRAINTS implies (#[trigger] constraints(row)[k])@ == 0 by {
        if k == 0 {
            let b = row[SUB_P_BIT as int];
            assert(bit_constraint(b)@ == (b@ * ((b@ - 1) % p)) % p);
            if b@ == 0 {
                assert(0 * ((0 - 1) % p) == 0) by (nonlinear_arith);
            } else {
                assert(1 * 0 == 0);
            }
        } else if k < N_LIMBS {
            let c = carry(row, k - 1);
            assert(is_carry(c));
            let square = (c@ * c@) % p;
            assert(carry_constraint(c)@ == (c@ * ((square - 1) % p)) % p);
            if c@ == 0 {
                assert(0 * ((square - 1) % p) == 0) by (nonlinear_arith);
            } else if c@ == 1 {
                assert(1 * 1 == 1);
                assert(1 * 0 == 0);
            } else {
                assert((p - 1) * (p - 1) == p * (p - 2) + 1) by (nonlinear_arith);
                lemma_mod_multiples_vanish(p - 2, 1, p);
                assert(square == 1);
                assert((p - 1) * 0 == 0);
            }
        }
    }
}

/// A row of zeros, as pads a component to its size, meets what the
/// constraints ask for.
pub proof fn lemma_zero_row_is_satisfied(row: Seq<M31>)
    requires
        row.len() == N_TRACE_COLUMNS,
        forall|i: int| 0 <= i < N_TRACE_COLUMNS ==> (#[trigger] row[i])@ == 0,
    ensures
        satisfied(row),
{
    broadcast use M31::lemma_of;

    assert forall|i: int| 0 <= i < N_LIMBS implies limb_excess(row, i, carry_into(row, i))@ == 0
        && (i < N_LIMBS - 1 ==> (#[trigger] carry(row, i))@ == 0) by {
        lemma_zero_row_carry(row, i);
    }
    assert(carry_into(row, N_LIMBS - 1) == carry(row, N_LIMBS - 2));
}

proof fn lemma_zero_row_carry(row: Seq<M31>, i: int)
    requires
        row.len() == N_TRACE_COLUMNS,
        forall|i: int| 0 <= i < N_TRACE_COLUMNS ==> (#[trigger] row[i])@ == 0,
        0 <= i < N_LIMBS,
    ensures
        limb_excess(row, i, carry_into(row, i))@ == 0,
        i < N_LIMBS - 1 ==> carry(row, i)@ == 0,
    decreases i,
{
    broadcast use M31::lemma_of;

    let p = P as int;
    if i > 0 {
        lemma_zero_row_carry(row, i - 1);
    }
    let m = modulus_limb(i);
    assert(row[OP0_LIMBS + i]@ == 0);
    assert(row[OP1_LIMBS + i]@ == 0);
    assert(row[DST_LIMBS + i]@ == 0);
    assert(row[SUB_P_BIT as int]@ == 0);
    assert((m % p) * 0 == 0) by (nonlinear_arith);
    assert(carry_into(row, i)@ == 0);
    assert(limb_excess(row, i, carry_into(row, i))@ == 0);
    assert(0 * (4194304int % p) == 0) by (nonlinear_arith);
}

/// The carries settle the limbs of the row over the integers: at each limb,
/// the sum of the limbs of the two operands and the carry in is the limb of
/// the result and, where the flag is set, the limb of the modulus, and `2^9`
/// times the carry out; each carry is zero, one or minus one, and the last
/// is zero.
pub open spec fn carries_resolve(row: Seq<M31>, carries: Seq<int>) -> bool {
    &&& carries.len() == N_LIMBS
    &&& carries[N_LIMBS - 1] == 0
    &&& forall|i: int|
        0 <= i < N_LIMBS ==> {
            &&& -1 <= #[trigger] carries[i] <= 1
            &&& row[OP0_LIMBS + i]@ + row[OP1_LIMBS + i]@ + (if i == 0 {
                0
            } else {
                carries[i - 1]
            }) == row[DST_LIMBS + i]@ + modulus_limb(i) * row[SUB_P_BIT as int]@ + 512
                * carries[i]
        }
}

/// Where carries settle the limbs of a row, the carry of the row out of limb
/// `i` stands for the carry given.
proof fn lemma_resolved_carry(row: Seq<M31>, carries: Seq<int>, i: int)
    requires
        row.len() == N_TRACE_COLUMNS,
        is_bit(row[SUB_P_BIT as int]),
        carries_resolve(row, carries),
        0 <= i < N_LIMBS - 1,
    ensures
        is_carry(carry(row, i)),
        signed(carry(row, i)) == carries[i],
        congruent(carry(row, i)@, carries[i]),
    decreases i,
{
    broadcast use M31::lemma_of;

    let p = P as int;
    if i > 0 {
        lemma_resolved_carry(row, carries, i - 1);
    }
    let carry_in = carry_into(row, i);
    let c_in = if i == 0 {
        0
    } else {
        carries[i - 1]
    };
    let c = carries[i];
    assert(-1 <= carries[i] <= 1);
    assert(congruent(carry_in@, c_in));
    let e = limb_excess(row, i, carry_in)@;
    lemma_excess_residue(row, i, carry_in);
    let a = row[OP0_LIMBS + i]@;
    let b = row[OP1_LIMBS + i]@;
    let d = row[DST_LIMBS + i]@;
    let s = row[SUB_P_BIT as int]@;
    let m = modulus_limb(i);
    assert(congruent(a + b + carry_in@ - d - m * s, 512 * c)) by {
        lemma_add_mod_noop(a + b - d - m * s, carry_in@, p);
        lemma_add_mod_noop(a + b - d - m * s, c_in, p);
    }
    let k = carry(row, i)@;
    assert(4194304int % p == 4194304);
    assert(k == (e * 4194304) % p);
    // The carry is the excess over 2^9, and the excess is 2^9 times the
    // carry given.
    vstd::arithmetic::div_mod::lemma_mul_mod_noop_left(e, 4194304, p);
    vstd::arithmetic::div_mod::lemma_mul_mod_noop_left(512 * c, 4194304, p);
    assert((512 * c) * 4194304 == p * c + c) by (nonlinear_arith)
        requires
            p == 2147483647,
    ;
    lemma_mod_multiples_vanish(c, c, p);
    assert(k == c % p);
    if c == -1 {
        lemma_mod_multiples_vanish(1, -1, p);
        lemma_small_mod((p - 1) as nat, p as nat);
    } else {
        lemma_small_mod(c as nat, p as nat);
    }
}

/// A row whose limbs are settled by carries meets what its constraints ask
/// for.
pub proof fn lemma_resolved_rows_are_satisfied(row: Seq<M31>, carries: Seq<int>)
    requires
        row.len() == N_TRACE_COLUMNS,
        is_bit(row[SUB_P_BIT as int]),
        carries_resolve(row, carries),
    ensures
        satisfied(row),
{
    broadcast use M31::lemma_of;

    let p = P as int;
    assert forall|i: int| 0 <= i < N_LIMBS - 1 implies is_carry(#[trigger] carry(row, i)) by {
        lemma_resolved_carry(row, carries, i);
    }
    let last = N_LIMBS - 1;
    lemma_resolved_carry(row, carries, last - 1);
    let carry_in = carry(row, last - 1);
    lemma_excess_residue(row, last, carry_in);
    let a = row[OP0_LIMBS + last]@;
    let b = row[OP1_LIMBS + last]@;
    let d = row[DST_LIMBS + last]@;
    let s = row[SUB_P_BIT as int]@;
    let m = modulus_limb(last);
    assert(-1 <= carries[last] <= 1);
    assert(congruent(a + b + carry_in@ - d - m * s, 0)) by {
        lemma_add_mod_noop(a + b - d - m * s, carry_in@, p);
        lemma_add_mod_noop(a + b - d - m * s, carries[last - 1], p);
    }
    let e = limb_excess(row, last, carry_in)@;
    assert(0 <= e < p);
    lemma_small_mod(e as nat, p as nat);
}

/// The row holds the limbs of the operands, of the result and the overflow
/// flag.
pub open spec fn row_holds(
    row: Seq<M31>,
    op0: Seq<u32>,
    op1: Seq<u32>,
    dst: Seq<u32>,
    overflow: bool,
) -> bool {
    &&& row.len() == N_TRACE_COLUMNS
    &&& row[SUB_P_BIT as int]@ == if overflow {
        1int
    } else {
        0
    }
    &&& forall|i: int|
        0 <= i < N_LIMBS ==> {
            &&& (#[trigger] row[OP0_LIMBS + i])@ == op0[i]
            &&& (#[trigger] row[OP1_LIMBS + i])@ == op1[i]
            &&& (#[trigger] row[DST_LIMBS + i])@ == dst[i]
        }
}

/// The limbs as integers.
pub open spec fn limb_digits(limbs: Seq<u32>) -> Seq<int> {
    limbs.map_values(|limb: u32| limb as int)
}

/// The number that limbs stand for.
pub open spec fn limbs_value(limbs: Seq<u32>) -> int {
    positional_value(limb_digits(limbs), 9)
}

/// There are 28 limbs, each below `2^9`.
pub open spec fn are_limbs(limbs: Seq<u32>) -> bool {
    &&& limbs.len() == N_LIMBS
    &&& forall|i: int| 0 <= i < N_LIMBS ==> #[trigger] limbs[i] < 512
}

proof fn lemma_prefix_step(
    op0: int,
    op1: int,
    dst: int,
    modulus: int,
    flag: int,
    carry_in: int,
    carry_out: int,
    a: int,
    b: int,
    limb: int,
    m: int,
    w: int,
    w_next: int,
)
    requires
        op0 + op1 == dst + flag * modulus + carry_in * w,
        a + b + carry_in == limb + m * flag + 512 * carry_out,
        w_next == 512 * w,
    ensures
        (op0 + a * w) + (op1 + b * w) == (dst + limb * w) + flag * (modulus + m * w) + carry_out
            * w_next,
{
    assert(a * w + b * w + carry_in * w == limb * w + flag * (m * w) + carry_out * (512 * w))
        by (nonlinear_arith)
        requires
            a + b + carry_in == limb + m * flag + 512 * carry_out,
    ;
    assert(flag * (modulus + m * w) == flag * modulus + flag * (m * w)) by (nonlinear_arith);
}

/// The limbs of the sum of two operands less the modulus where `overflow` is
/// set, and the carry out of the last limb, more by one: zero where the sum
/// is negative, two where it does not fit the limbs.
fn add_limbs(op0: &Vec<u32>, op1: &Vec<u32>, overflow: bool) -> (r: (Vec<u32>, u32, Ghost<Seq<int>>))
    requires
        are_limbs(op0@),
        are_limbs(op1@),
    ensures
        are_limbs(r.0@),
        r.1 <= 2,
        r.2@.len() == N_LIMBS,
        r.2@[N_LIMBS - 1] == r.1 - 1,
        forall|i: int|
            0 <= i < N_LIMBS ==> {
                &&& -1 <= #[trigger] r.2@[i] <= 1
                &&& op0@[i] + op1@[i] + (if i == 0 {
                    0
                } else {
                    r.2@[i - 1]
                }) == r.0@[i] + modulus_limb(i) * (if overflow {
                    1int
                } else {
                    0
                }) + 512 * r.2@[i]
            },
        limbs_value(op0@) + limbs_value(op1@) == limbs_value(r.0@) + (if overflow {
            modulus()
        } else {
            0
        }) + (r.1 - 1) * pow2(252),
{
    let ghost flag: int = if overflow {
        1
    } else {
        0
    };
    let mut dst: Vec<u32> = Vec::new();
    let ghost mut carries: Seq<int> = Seq::empty();
    // The carry, more by one.
    let mut carry: u32 = 1;
    let mut i: usize = 0;
    proof {
        lemma2_to64();
        assert(9 * 0 == 0) by (nonlinear_arith);
        assert(0 * pow2(0) == 0) by (nonlinear_arith);
        assert(flag * 0 == 0) by (nonlinear_arith);
        lemma_modulus_prefix(0);
    }
    while i < N_LIMBS
        invariant
            0 <= i <= N_LIMBS,
            are_limbs(op0@),
            are_limbs(op1@),
            flag == if overflow {
                1int
            } else {
                0
            },
            dst@.len() == i,
            carries.len() == i,
            carry <= 2,
            i > 0 ==> carries[i - 1] == carry - 1,
            i == 0 ==> carry == 1,
            forall|k: int| 0 <= k < i ==> #[trigger] dst@[k] < 512,
            forall|k: int|
                0 <= k < i ==> {
                    &&& -1 <= #[trigger] carries[k] <= 1
                    &&& op0@[k] + op1@[k] + (if k == 0 {
                        0
                    } else {
                        carries[k - 1]
                    }) == dst@[k] + modulus_limb(k) * flag + 512 * carries[k]
                },
            positional_value(limb_digits(op0@).take(i as int), 9) + positional_value(
                limb_digits(op1@).take(i as int),
                9,
            ) == positional_value(limb_digits(dst@), 9) + flag * modulus_prefix(i as int) + (carry
                - 1) * pow2((9 * i) as nat),
        decreases N_LIMBS - i,
    {
        let taken_off: u32 = if !overflow {
            0
        } else if i == 0 {
            1
        } else if i == 21 {
            136
        } else if i == 27 {
            256
        } else {
            0
        };
        assert(taken_off == modulus_limb(i as int) * flag) by {
            assert(modulus_limb(i as int) * 0 == 0) by (nonlinear_arith);
            assert(modulus_limb(i as int) * 1 == modulus_limb(i as int)) by (nonlinear_arith);
        }
        let shifted: u32 = op0[i] + op1[i] + carry + 511 - taken_off;
        let limb: u32 = shifted % 512;
        let next: u32 = shifted / 512;
        proof {
            let c = next - 1;
            let after = limb_digits(dst@.push(limb));
            assert(after.drop_last() =~= limb_digits(dst@));
            assert(after.last() == limb);
            lemma_positional_value_step(limb_digits(op0@), 9, i as int);
            lemma_positional_value_step(limb_digits(op1@), 9, i as int);
            lemma_modulus_prefix(i as int);
            lemma_modulus_prefix(i + 1);
            lemma_positional_value_step(modulus_limbs(), 9, i as int);
            lemma_pow2_adds(9, (9 * i) as nat);
            lemma2_to64();
            assert(9 + 9 * i == 9 * (i + 1));
            lemma_prefix_step(
                positional_value(limb_digits(op0@).take(i as int), 9),
                positional_value(limb_digits(op1@).take(i as int), 9),
                positional_value(limb_digits(dst@), 9),
                modulus_prefix(i as int),
                flag,
                carry - 1,
                c,
                op0@[i as int] as int,
                op1@[i as int] as int,
                limb as int,
                modulus_limb(i as int),
                pow2((9 * i) as nat) as int,
                pow2((9 * (i + 1)) as nat) as int,
            );
            carries = carries.push(c);
        }
        dst.push(limb);
        carry = next;
        i = i + 1;
    }
    proof {
        assert(limb_digits(op0@).take(N_LIMBS as int) =~= limb_digits(op0@));
        assert(limb_digits(op1@).take(N_LIMBS as int) =~= limb_digits(op1@));
        lemma_pow2_adds(3, 189);
        lemma_pow2_adds(8, 243);
        lemma2_to64();
        assert(136 * pow2(189) == 17 * (8 * pow2(189))) by (nonlinear_arith);
        assert(flag * modulus() == if overflow {
            modulus()
        } else {
            0
        }) by (nonlinear_arith)
            requires
                flag == if overflow {
                    1int
                } else {
                    0
                },
        ;
    }
    (dst, carry, Ghost(carries))
}

/// The limbs of the sum of two operands in the 252-bit field, and whether
/// the modulus was taken off the sum. There are none where the sum does not
/// fit the limbs even with the modulus taken off.
pub fn add_witness(op0: &Vec<u32>, op1: &Vec<u32>) -> (r: Option<(Vec<u32>, bool)>)
    requires
        are_limbs(op0@),
        are_limbs(op1@),
    ensures
        r is Some <==> limbs_value(op0@) + limbs_value(op1@) < pow2(252) + modulus(),
        r matches Some((dst, overflow)) ==> {
            &&& are_limbs(dst@)
            &&& overflow <==> limbs_value(op0@) + limbs_value(op1@) >= modulus()
            &&& limbs_value(op0@) + limbs_value(op1@) == limbs_value(dst@) + if overflow {
                modulus()
            } else {
                0
            }
            &&& forall|row: Seq<M31>| #[trigger]
                row_holds(row, op0@, op1@, dst@, overflow) ==> satisfied(row)
        },
{
    proof {
        lemma_limbs_bound(op0@);
        lemma_limbs_bound(op1@);
    }
    let (reduced, carry, Ghost(carries)) = add_limbs(op0, op1, true);
    proof {
        lemma_limbs_bound(reduced@);
    }
    if carry == 1 {
        proof {
            assert((carry - 1) * pow2(252) == 0) by (nonlinear_arith)
                requires
                    carry == 1,
            ;
            assert forall|row: Seq<M31>| #[trigger]
                row_holds(row, op0@, op1@, reduced@, true) implies satisfied(row) by {
                lemma_resolved_rows_are_satisfied(row, carries);
            }
        }
        return Some((reduced, true));
    }
    let (sum, carry_out, Ghost(plain_carries)) = add_limbs(op0, op1, false);
    proof {
        lemma_limbs_bound(sum@);
        let top = pow2(252) as int;
        assert((carry - 1) * top == -top || (carry - 1) * top == top) by (nonlinear_arith)
            requires
                carry == 0 || carry == 2,
        ;
        assert((carry_out - 1) * top == -top || (carry_out - 1) * top == 0 || (carry_out - 1)
            * top == top) by (nonlinear_arith)
            requires
                0 <= carry_out <= 2,
        ;
        assert(carry_out == 1 ==> (carry_out - 1) * top == 0) by (nonlinear_arith);
        assert(carry_out == 0 ==> (carry_out - 1) * top == -top) by (nonlinear_arith);
        assert(carry_out == 2 ==> (carry_out - 1) * top == top) by (nonlinear_arith);
        assert(carry == 0 ==> (carry - 1) * top == -top) by (nonlinear_arith);
        assert(carry == 2 ==> (carry - 1) * top == top) by (nonlinear_arith);
        lemma_modulus_bound();
    }
    if carry_out == 1 {
        proof {
            assert forall|row: Seq<M31>| #[trigger]
                row_holds(row, op0@, op1@, sum@, false) implies satisfied(row) by {
                lemma_resolved_rows_are_satisfied(row, plain_carries);
            }
        }
        Some((sum, false))
    } else {
        None
    }
}

/// Limbs stand for a number below `2^252`.
pub proof fn lemma_limbs_bound(limbs: Seq<u32>)
    requires
        are_limbs(limbs),
    ensures
        0 <= limbs_value(limbs) < pow2(252),
{
    lemma2_to64();
    crate::felt252::lemma_positional_value_bound(limb_digits(limbs), 9);
}

} // verus!
