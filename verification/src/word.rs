//! Words: the 64-bit patterns of IEEE-754 binary64 numbers, handled as
//! integers.

use vstd::prelude::*;
use crate::errors::Type;

verus! {

/// The sign bit of a word.
pub const SIGN_MASK: u64 = 0x8000_0000_0000_0000;

/// Every bit of a word but the sign.
pub const MAGNITUDE_MASK: u64 = 0x7FFF_FFFF_FFFF_FFFF;

/// The word of positive infinity: the exponent field full, the fraction empty.
pub const INFINITY: u64 = 0x7FF0_0000_0000_0000;

/// The word of the number one.
pub const ONE: u64 = 0x3FF0_0000_0000_0000;

/// The number of bits in a word.
pub const WORD_BITS: u8 = 64;

/// Whether bit `n` of `w` is set; bit 0 is the least significant.
pub open spec fn bit(w: u64, n: u8) -> bool {
    (w >> n) & 1 == 1
}

/// The word `value` after a fault of kind `mode` struck its bit `n_bit`.
/// A position outside the word strikes nothing.
pub open spec fn corrupted(value: u64, n_bit: u8, mode: Type) -> u64 {
    if n_bit >= WORD_BITS {
        value
    } else {
        match mode {
            Type::NoError => value,
            Type::Stuck0 => value & !(1u64 << n_bit),
            Type::Stuck1 => value | (1u64 << n_bit),
            Type::BitFlip => value ^ (1u64 << n_bit),
        }
    }
}

/// Strikes bit `n_bit` of `value` with a fault of kind `mode`.
pub fn corrupt_bit(value: u64, n_bit: u8, mode: Type) -> (r: u64)
    ensures
        r == corrupted(value, n_bit, mode),
{
    if n_bit >= WORD_BITS {
        return value;
    }
    let mask: u64 = 1u64 << n_bit;
    match mode {
        Type::NoError => value,
        Type::Stuck0 => value & !mask,
        Type::Stuck1 => value | mask,
        Type::BitFlip => value ^ mask,
    }
}

/// A fault changes the bit it strikes as its kind says, and no other bit.
pub proof fn lemma_corrupted_bits(value: u64, n_bit: u8, mode: Type, k: u8)
    requires
        n_bit < WORD_BITS,
        k < WORD_BITS,
    ensures
        k != n_bit ==> bit(corrupted(value, n_bit, mode), k) == bit(value, k),
        mode == Type::NoError ==> corrupted(value, n_bit, mode) == value,
        mode == Type::Stuck0 ==> !bit(corrupted(value, n_bit, mode), n_bit),
        mode == Type::Stuck1 ==> bit(corrupted(value, n_bit, mode), n_bit),
        mode == Type::BitFlip ==> bit(corrupted(value, n_bit, mode), n_bit) == !bit(value, n_bit),
{
    assert(k != n_bit ==> ((value & !(1u64 << n_bit)) >> k) & 1 == (value >> k) & 1) by (bit_vector)
        requires
            n_bit < 64,
            k < 64,
    ;
    assert(k != n_bit ==> ((value | (1u64 << n_bit)) >> k) & 1 == (value >> k) & 1) by (bit_vector)
        requires
            n_bit < 64,
            k < 64,
    ;
    assert(k != n_bit ==> ((value ^ (1u64 << n_bit)) >> k) & 1 == (value >> k) & 1) by (bit_vector)
        requires
            n_bit < 64,
            k < 64,
    ;
    assert(((value & !(1u64 << n_bit)) >> n_bit) & 1 == 0) by (bit_vector)
        requires
            n_bit < 64,
    ;
    assert(((value | (1u64 << n_bit)) >> n_bit) & 1 == 1) by (bit_vector)
        requires
            n_bit < 64,
    ;
    assert((((value ^ (1u64 << n_bit)) >> n_bit) & 1 == 1) == !((value >> n_bit) & 1 == 1))
        by (bit_vector)
        requires
            n_bit < 64,
    ;
}

/// A stuck bit stays as it is when the same fault strikes again.
pub proof fn lemma_stuck_idempotent(value: u64, n_bit: u8, mode: Type)
    requires
        mode == Type::Stuck0 || mode == Type::Stuck1,
    ensures
        corrupted(corrupted(value, n_bit, mode), n_bit, mode) == corrupted(value, n_bit, mode),
{
    if n_bit < WORD_BITS {
        assert((value & !(1u64 << n_bit)) & !(1u64 << n_bit) == value & !(1u64 << n_bit))
            by (bit_vector);
        assert((value | (1u64 << n_bit)) | (1u64 << n_bit) == value | (1u64 << n_bit))
            by (bit_vector);
    }
}

/// A flipped bit is back where it was when it is flipped again.
pub proof fn lemma_flip_involutive(value: u64, n_bit: u8)
    ensures
        corrupted(corrupted(value, n_bit, Type::BitFlip), n_bit, Type::BitFlip) == value,
{
    if n_bit < WORD_BITS {
        assert((value ^ (1u64 << n_bit)) ^ (1u64 << n_bit) == value) by (bit_vector);
    }
}

/// The word of the number with the opposite sign.
pub open spec fn negated(w: u64) -> u64 {
    w ^ SIGN_MASK
}

/// Changes the sign of the number that `w` encodes.
pub fn negate(w: u64) -> (r: u64)
    ensures
        r == negated(w),
{
    w ^ SIGN_MASK
}

/// The word without its sign.
pub open spec fn magnitude(w: u64) -> u64 {
    w & MAGNITUDE_MASK
}

/// Whether the word encodes no number.
pub open spec fn is_nan(w: u64) -> bool {
    magnitude(w) > INFINITY
}

/// Whether the sign bit is set.
pub open spec fn is_negative(w: u64) -> bool {
    w & SIGN_MASK != 0
}

/// The place of a word among all words when they are ordered as the numbers
/// they encode: the two zeros share place 0, and infinities are the ends.
pub open spec fn rank(w: u64) -> int {
    if is_negative(w) {
        -(magnitude(w) as int)
    } else {
        magnitude(w) as int
    }
}

/// Whether the number of `a` is greater than that of `b`. Nothing is
/// greater or smaller than a word that encodes no number.
pub open spec fn greater(a: u64, b: u64) -> bool {
    !is_nan(a) && !is_nan(b) && rank(a) > rank(b)
}

/// Compares two words as the numbers they encode.
pub fn exceeds(a: u64, b: u64) -> (r: bool)
    ensures
        r == greater(a, b),
{
    let size_a: u64 = a & MAGNITUDE_MASK;
    let size_b: u64 = b & MAGNITUDE_MASK;
    if size_a > INFINITY || size_b > INFINITY {
        return false;
    }
    let below_a: bool = a & SIGN_MASK != 0;
    let below_b: bool = b & SIGN_MASK != 0;
    if below_a {
        below_b && size_a < size_b
    } else if below_b {
        size_a > 0 || size_b > 0
    } else {
        size_a > size_b
    }
}

/// The position of the highest set bit of `x`, for `x` above 0.
pub open spec fn top_bit(x: u8) -> nat {
    if x >= 128 {
        7
    } else if x >= 64 {
        6
    } else if x >= 32 {
        5
    } else if x >= 16 {
        4
    } else if x >= 8 {
        3
    } else if x >= 4 {
        2
    } else if x >= 2 {
        1
    } else {
        0
    }
}

/// The weight of the lowest bit of a word's exponent field: 2 to the 52.
pub const EXPONENT_UNIT: u64 = 0x10_0000_0000_0000;

/// 2 to the power `e`, for the positions of the bits of a byte.
pub open spec fn weight(e: nat) -> int {
    if e == 0 {
        1
    } else if e == 1 {
        2
    } else if e == 2 {
        4
    } else if e == 3 {
        8
    } else if e == 4 {
        16
    } else if e == 5 {
        32
    } else if e == 6 {
        64
    } else {
        128
    }
}

/// 2 to the power `52 - e`: the weight that the lowest bit of a number has
/// in the fraction field when the number's highest set bit is bit `e`.
pub open spec fn step(e: nat) -> int {
    if e == 0 {
        0x10_0000_0000_0000
    } else if e == 1 {
        0x8_0000_0000_0000
    } else if e == 2 {
        0x4_0000_0000_0000
    } else if e == 3 {
        0x2_0000_0000_0000
    } else if e == 4 {
        0x1_0000_0000_0000
    } else if e == 5 {
        0x8000_0000_0000
    } else if e == 6 {
        0x4000_0000_0000
    } else {
        0x2000_0000_0000
    }
}

/// The word of the whole number `x`: the exponent field holds 1023 more
/// than the position of the highest set bit, and the fraction field holds
/// the bits below it, moved to the field's top.
pub open spec fn word_of(x: u8) -> u64 {
    if x == 0 {
        0
    } else {
        let e = top_bit(x);
        ((1023 + e) * EXPONENT_UNIT + (x - weight(e)) * step(e)) as u64
    }
}

/// Encodes a spike count as a word.
pub fn word_of_input(x: u8) -> (r: u64)
    ensures
        r == word_of(x),
        x == 0 ==> r == 0,
        x == 1 ==> r == ONE,
{
    if x == 0 {
        return 0;
    }
    let mut e: u8 = 7;
    while (x >> e) == 0
        invariant
            x != 0,
            e <= 7,
            forall|k: u8| e < k <= 7 ==> #[trigger] (x >> k) == 0,
        decreases e,
    {
        assert(x >> 0u8 == x) by (bit_vector);
        e = e - 1;
    }
    let wide: u64 = x as u64;
    let field: u64 = 1023 + (e as u64);
    let rest: u64 = wide ^ (1u64 << e);
    proof {
        lemma_word_of(x, e);
    }
    (field << 52) | (rest << (52 - e))
}

/// The word of `d / 256`: that of `d` with the exponent field lowered by 8,
/// and the zero word for 0.
pub open spec fn word_of_fraction(d: u8) -> u64 {
    if d == 0 {
        0
    } else {
        (word_of(d) - 8 * EXPONENT_UNIT) as u64
    }
}

/// Whether a word encodes one of the numbers `d / 256` below 1.
pub open spec fn is_fraction(w: u64) -> bool {
    exists|d: u8| w == #[trigger] word_of_fraction(d)
}

/// The word of a positive whole number lies between those of 1 and 256.
pub proof fn lemma_word_of_bounds(x: u8)
    requires
        x > 0,
    ensures
        1023 * EXPONENT_UNIT <= word_of(x) < 1031 * EXPONENT_UNIT,
{
    lemma_word_of_linear(x);
}

/// The word of a positive whole number, written out for each position that
/// its highest set bit can have.
proof fn lemma_word_of_linear(x: u8)
    requires
        x > 0,
    ensures
        top_bit(x) == 0 ==> word_of(x) == 1023 * 0x10_0000_0000_0000,
        top_bit(x) == 1 ==> word_of(x) == 1024 * 0x10_0000_0000_0000 + (x - 2) * 0x8_0000_0000_0000,
        top_bit(x) == 2 ==> word_of(x) == 1025 * 0x10_0000_0000_0000 + (x - 4) * 0x4_0000_0000_0000,
        top_bit(x) == 3 ==> word_of(x) == 1026 * 0x10_0000_0000_0000 + (x - 8) * 0x2_0000_0000_0000,
        top_bit(x) == 4 ==> word_of(x) == 1027 * 0x10_0000_0000_0000 + (x - 16) * 0x1_0000_0000_0000,
        top_bit(x) == 5 ==> word_of(x) == 1028 * 0x10_0000_0000_0000 + (x - 32) * 0x8000_0000_0000,
        top_bit(x) == 6 ==> word_of(x) == 1029 * 0x10_0000_0000_0000 + (x - 64) * 0x4000_0000_0000,
        top_bit(x) == 7 ==> word_of(x) == 1030 * 0x10_0000_0000_0000 + (x - 128) * 0x2000_0000_0000,
{
    let e = top_bit(x);
    let rest = x - weight(e);
    if e == 0 {
        assert(rest * step(e) == 0) by (nonlinear_arith)
            requires
                rest == 0,
        ;
    } else if e == 1 {
        assert(rest * step(e) == (x - 2) * 0x8_0000_0000_0000);
    } else if e == 2 {
        assert(rest * step(e) == (x - 4) * 0x4_0000_0000_0000);
    } else if e == 3 {
        assert(rest * step(e) == (x - 8) * 0x2_0000_0000_0000);
    } else if e == 4 {
        assert(rest * step(e) == (x - 16) * 0x1_0000_0000_0000);
    } else if e == 5 {
        assert(rest * step(e) == (x - 32) * 0x8000_0000_0000);
    } else if e == 6 {
        assert(rest * step(e) == (x - 64) * 0x4000_0000_0000);
    } else {
        assert(rest * step(e) == (x - 128) * 0x2000_0000_0000);
    }
}

/// The word of `d / 256` is the zero word only for `d` zero.
pub proof fn lemma_fraction_above_zero(d: u8)
    requires
        d > 0,
    ensures
        word_of_fraction(d) != 0,
{
    lemma_word_of_bounds(d);
}

/// Encodes `d / 256` as a word.
pub fn fraction_word(d: u8) -> (r: u64)
    ensures
        r == word_of_fraction(d),
        is_fraction(r),
{
    if d == 0 {
        return 0;
    }
    let whole: u64 = word_of_input(d);
    proof {
        lemma_word_of_bounds(d);
    }
    whole - 8 * EXPONENT_UNIT
}

proof fn lemma_word_of(x: u8, e: u8)
    requires
        x != 0,
        e <= 7,
        (x >> e) != 0,
        forall|k: u8| e < k <= 7 ==> #[trigger] (x >> k) == 0,
    ensures
        (((1023 + (e as u64)) as u64) << 52) | (((x as u64) ^ (1u64 << e)) << ((52 - e) as u64))
            == word_of(x),
        x == 1 ==> word_of(x) == ONE,
{
    assert(e < 7 ==> (x >> ((e + 1) as u8)) == 0);
    assert(((x >> e) != 0 && (e < 7 ==> (x >> ((e + 1) as u8)) == 0) && e <= 7) ==> ((e == 7 && x
        >= 128) || (e == 6 && 64 <= x < 128) || (e == 5 && 32 <= x < 64) || (e == 4 && 16 <= x
        < 32) || (e == 3 && 8 <= x < 16) || (e == 2 && 4 <= x < 8) || (e == 1 && 2 <= x < 4) || (e
        == 0 && 1 <= x < 2))) by (bit_vector);
    assert(e == top_bit(x));
    lemma_word_of_linear(x);
    let wide = x as u64;
    let built = (((1023 + (e as u64)) as u64) << 52) | ((wide ^ (1u64 << e)) << ((52 - e) as u64));
    if e == 0 {
        assert(wide == 1 ==> (1023u64 << 52) | ((wide ^ (1u64 << 0u8)) << 52u64)
            == 1023 * 0x10_0000_0000_0000u64) by (bit_vector);
    } else if e == 1 {
        assert(2 <= wide < 4 ==> (1024u64 << 52) | ((wide ^ (1u64 << 1u8)) << 51u64) == 1024
            * 0x10_0000_0000_0000u64 + (wide - 2) * 0x8_0000_0000_0000u64) by (bit_vector);
    } else if e == 2 {
        assert(4 <= wide < 8 ==> (1025u64 << 52) | ((wide ^ (1u64 << 2u8)) << 50u64) == 1025
            * 0x10_0000_0000_0000u64 + (wide - 4) * 0x4_0000_0000_0000u64) by (bit_vector);
    } else if e == 3 {
        assert(8 <= wide < 16 ==> (1026u64 << 52) | ((wide ^ (1u64 << 3u8)) << 49u64) == 1026
            * 0x10_0000_0000_0000u64 + (wide - 8) * 0x2_0000_0000_0000u64) by (bit_vector);
    } else if e == 4 {
        assert(16 <= wide < 32 ==> (1027u64 << 52) | ((wide ^ (1u64 << 4u8)) << 48u64) == 1027
            * 0x10_0000_0000_0000u64 + (wide - 16) * 0x1_0000_0000_0000u64) by (bit_vector);
    } else if e == 5 {
        assert(32 <= wide < 64 ==> (1028u64 << 52) | ((wide ^ (1u64 << 5u8)) << 47u64) == 1028
            * 0x10_0000_0000_0000u64 + (wide - 32) * 0x8000_0000_0000u64) by (bit_vector);
    } else if e == 6 {
        assert(64 <= wide < 128 ==> (1029u64 << 52) | ((wide ^ (1u64 << 6u8)) << 46u64) == 1029
            * 0x10_0000_0000_0000u64 + (wide - 64) * 0x4000_0000_0000u64) by (bit_vector);
    } else {
        assert(128 <= wide < 256 ==> (1030u64 << 52) | ((wide ^ (1u64 << 7u8)) << 45u64) == 1030
            * 0x10_0000_0000_0000u64 + (wide - 128) * 0x2000_0000_0000u64) by (bit_vector);
    }
}

} // verus!
