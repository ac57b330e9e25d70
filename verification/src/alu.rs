//! Word arithmetic of the machine: every operation takes and gives 16-bit words.
//!
//! Each operation is stated as a spec function over mathematical integers and
//! implemented by an executable function that is proved to compute it.

use vstd::prelude::*;
use vstd::arithmetic::div_mod::lemma_mod_bound;
use vstd::arithmetic::div_mod::lemma_div_pos_is_pos;
use vstd::arithmetic::div_mod::lemma_div_is_ordered_by_denominator;
use vstd::arithmetic::div_mod::lemma_div_basics_2;

verus! {

/// The word that stands for `value` modulo 2^16.
pub open spec fn wrap(value: int) -> u16 {
    (value % 0x1_0000) as u16
}

/// The value of `word` read as a two's-complement signed number.
pub open spec fn signed(word: u16) -> int {
    if word < 0x8000 {
        word as int
    } else {
        word as int - 0x1_0000
    }
}

/// The 16-bit word with the same signed value as the 8-bit `byte`.
pub open spec fn sign_extend_byte(byte: int) -> u16
    recommends
        0 <= byte < 0x100,
{
    if byte < 0x80 {
        byte as u16
    } else {
        (0xFF00 + byte) as u16
    }
}

/// Number of binary digits of `n` that are one.
pub open spec fn popcount(n: nat) -> nat
    decreases n,
{
    if n == 0 {
        0
    } else {
        (n % 2) + popcount(n / 2)
    }
}

/// Number of binary digits needed to write `n`; zero for zero.
pub open spec fn bit_length(n: nat) -> nat
    decreases n,
{
    if n == 0 {
        0
    } else {
        1 + bit_length(n / 2)
    }
}

/// Number of zero digits below the lowest one digit of `n`; zero for zero.
pub open spec fn low_zeros(n: nat) -> nat
    decreases n,
{
    if n == 0 || n % 2 == 1 {
        0
    } else {
        1 + low_zeros(n / 2)
    }
}

/// Zero bits above the highest set bit of a word; 16 for the zero word.
pub open spec fn spec_leading_zeros(word: u16) -> nat {
    (16 - bit_length(word as nat)) as nat
}

/// Zero bits below the lowest set bit of a word; 16 for the zero word.
pub open spec fn spec_trailing_zeros(word: u16) -> nat {
    if word == 0 {
        16
    } else {
        low_zeros(word as nat)
    }
}

/// Quotient of `a` by `b` rounded towards zero.
pub open spec fn truncated_quotient(a: int, b: int) -> int
    recommends
        b != 0,
{
    if a >= 0 && b > 0 {
        a / b
    } else if a >= 0 {
        -(a / (-b))
    } else if b > 0 {
        -((-a) / b)
    } else {
        (-a) / (-b)
    }
}

/// Remainder that goes with [`truncated_quotient`]: it has the sign of `a`.
pub open spec fn truncated_remainder(a: int, b: int) -> int
    recommends
        b != 0,
{
    let divisor = if b > 0 {
        b
    } else {
        -b
    };
    if a >= 0 {
        a % divisor
    } else {
        -((-a) % divisor)
    }
}

/// Uniform reduction of 64 random bits to the range `0..=upper_bound`.
pub open spec fn spec_reduce(entropy: u64, upper_bound: u16) -> u16 {
    (entropy % (upper_bound as u64 + 1) as u64) as u16
}

/// Left shift that fills with zeros; amounts of 16 or more shift everything out.
pub open spec fn spec_shift_left(source: u16, amount: u16) -> u16 {
    if amount >= 16 {
        0
    } else {
        source << amount
    }
}

/// Logical right shift; amounts of 16 or more shift everything out.
pub open spec fn spec_shift_right_logical(source: u16, amount: u16) -> u16 {
    if amount >= 16 {
        0
    } else {
        source >> amount
    }
}

/// Arithmetic right shift: the sign bit fills from the left. Amounts of 16 or
/// more leave only copies of the sign bit.
pub open spec fn spec_shift_right_arithmetic(source: u16, amount: u16) -> u16 {
    if amount >= 16 {
        if source >= 0x8000 {
            0xFFFF
        } else {
            0
        }
    } else if source >= 0x8000 {
        !((!source) >> amount)
    } else {
        source >> amount
    }
}

/// Result of the unary function selected by `function`, or `None` where the
/// code selects no function. Only `rnd` (code 14) reads `entropy`.
pub open spec fn spec_unary(function: u16, source: u16, entropy: u64) -> Option<u16> {
    if function == 0x8 {
        Some(wrap(source - 1))
    } else if function == 0x9 {
        Some(wrap(source + 1))
    } else if function == 0xA {
        Some(!source)
    } else if function == 0xB {
        Some(popcount(source as nat) as u16)
    } else if function == 0xC {
        Some(spec_leading_zeros(source) as u16)
    } else if function == 0xD {
        Some(spec_trailing_zeros(source) as u16)
    } else if function == 0xE {
        Some(spec_reduce(entropy, source))
    } else if function == 0xF {
        Some(source)
    } else {
        None
    }
}

/// Result of the binary function selected by `function` on the source (first
/// argument) and the destination (second argument), or `None` where the code
/// selects no function.
pub open spec fn spec_binary(function: u16, source: u16, destination: u16) -> Option<u16> {
    if function == 0x0 {
        Some(wrap(source + destination))
    } else if function == 0x1 {
        Some(wrap(source - destination))
    } else if function == 0x2 {
        Some(wrap(source * destination))
    } else if function == 0x3 {
        Some(((source * destination) / 0x1_0000) as u16)
    } else if function == 0x4 {
        Some(
            if destination == 0 {
                0xFFFF
            } else {
                source / destination
            },
        )
    } else if function == 0x5 {
        Some(
            if destination == 0 {
                0x7FFF
            } else {
                wrap(truncated_quotient(signed(source), signed(destination)))
            },
        )
    } else if function == 0x6 {
        Some(
            if destination == 0 {
                0
            } else {
                source % destination
            },
        )
    } else if function == 0x7 {
        Some(
            if destination == 0 {
                0
            } else {
                wrap(truncated_remainder(signed(source), signed(destination)))
            },
        )
    } else if function == 0x8 {
        Some(source & destination)
    } else if function == 0x9 {
        Some(source | destination)
    } else if function == 0xA {
        Some(source ^ destination)
    } else if function == 0xB {
        Some(spec_shift_left(source, destination))
    } else if function == 0xC {
        Some(spec_shift_right_logical(source, destination))
    } else if function == 0xD {
        Some(spec_shift_right_arithmetic(source, destination))
    } else {
        None
    }
}

/// Whether one of the relations selected by `flags` holds between `lhs` and
/// `rhs`. The four bits of `flags` select, from the highest down: less, equal,
/// greater, and reading both words as signed numbers.
pub open spec fn spec_compare(flags: u16, lhs: u16, rhs: u16) -> bool {
    let a = if flags % 2 == 1 {
        signed(lhs)
    } else {
        lhs as int
    };
    let b = if flags % 2 == 1 {
        signed(rhs)
    } else {
        rhs as int
    };
    ||| (flags / 8) % 2 == 1 && a < b
    ||| (flags / 4) % 2 == 1 && a == b
    ||| (flags / 2) % 2 == 1 && a > b
}

/// A word is written with at most 16 digits.
pub proof fn lemma_bit_length_word(word: u16)
    ensures
        bit_length(word as nat) <= 16,
{
    reveal_with_fuel(bit_length, 18);
}

/// The product of two words fits in 32 bits.
pub proof fn lemma_product_bound(a: u16, b: u16)
    ensures
        0 <= a * b <= 0xFFFF * 0xFFFF,
{
    assert(0 <= a * b <= 0xFFFF * 0xFFFF) by (nonlinear_arith)
        requires
            0 <= a <= 0xFFFF,
            0 <= b <= 0xFFFF,
    ;
}

/// Shift amounts of 16 or more are not reduced modulo 16: the logical shifts
/// give zero, the arithmetic shift gives sixteen copies of the sign bit.
pub proof fn lemma_shift_clamp(source: u16, amount: u16)
    requires
        amount >= 16,
    ensures
        spec_binary(0xB, source, amount) == Some(0u16),
        spec_binary(0xC, source, amount) == Some(0u16),
        spec_binary(0xD, source, amount) == Some(
            if source >= 0x8000 {
                0xFFFFu16
            } else {
                0u16
            },
        ),
{
}

/// Below 16 the shifts are multiplication and division by a power of two: the
/// left shift keeps the low 16 bits of the product, the logical right shift
/// is the quotient of the word, and the arithmetic right shift is the
/// quotient of the signed reading, rounded down.
pub proof fn lemma_shift_arithmetic(source: u16, amount: u16)
    requires
        amount < 16,
    ensures
        spec_shift_left(source, amount) as int == (source as int * (1u32 << (amount as u32)) as int)
            % 0x1_0000,
        spec_shift_right_logical(source, amount) == source / (1u16 << amount),
        source < 0x8000 ==> spec_shift_right_arithmetic(source, amount) == source / (1u16 << amount),
        source >= 0x8000 ==> spec_shift_right_arithmetic(source, amount) == 0xFFFFu16 - ((0xFFFFu16
            - source) as u16) / (1u16 << amount),
{
    assert((source << amount) as int == (source as int * (1u32 << (amount as u32)) as int)
        % 0x1_0000) by (bit_vector)
        requires
            amount < 16,
    ;
    assert(source >> amount == source / (1u16 << amount)) by (bit_vector)
        requires
            amount < 16,
    ;
    assert(source >= 0x8000 ==> (!((!source) >> amount)) == 0xFFFFu16 - ((0xFFFFu16
        - source) as u16) / (1u16 << amount)) by (bit_vector)
        requires
            amount < 16,
    ;
}

/// Sign-extends the low byte of an instruction to a word.
pub fn sign_extend(byte: u16) -> (word: u16)
    requires
        byte < 0x100,
    ensures
        word == sign_extend_byte(byte as int),
        signed(word) == if byte < 0x80 { byte as int } else { byte as int - 0x100 },
{
    if byte < 0x80 {
        byte
    } else {
        0xFF00 + byte
    }
}

/// Counts the bits of `word` that are set.
pub fn count_ones(word: u16) -> (count: u16)
    ensures
        count == popcount(word as nat),
        count <= 16,
{
    let mut rest: u16 = word;
    let mut count: u16 = 0;
    let mut digits: u16 = 0;
    proof {
        lemma_bit_length_word(word);
    }
    while rest != 0
        invariant
            count + popcount(rest as nat) == popcount(word as nat),
            digits + bit_length(rest as nat) == bit_length(word as nat),
            count <= digits,
            bit_length(word as nat) <= 16,
        decreases rest,
    {
        count = count + rest % 2;
        digits = digits + 1;
        rest = rest / 2;
    }
    count
}

/// Counts the zero bits above the highest set bit of `word`.
pub fn leading_zeros(word: u16) -> (count: u16)
    ensures
        count == spec_leading_zeros(word),
        count <= 16,
        (count == 16) == (word == 0),
{
    let mut rest: u16 = word;
    let mut digits: u16 = 0;
    proof {
        lemma_bit_length_word(word);
    }
    while rest != 0
        invariant
            digits + bit_length(rest as nat) == bit_length(word as nat),
            bit_length(word as nat) <= 16,
        decreases rest,
    {
        digits = digits + 1;
        rest = rest / 2;
    }
    16 - digits
}

/// Counts the zero bits below the lowest set bit of `word`.
pub fn trailing_zeros(word: u16) -> (count: u16)
    ensures
        count == spec_trailing_zeros(word),
        count <= 16,
        (count == 16) == (word == 0),
{
    if word == 0 {
        return 16;
    }
    let mut rest: u16 = word;
    let mut count: u16 = 0;
    proof {
        lemma_bit_length_word(word);
    }
    while rest % 2 == 0
        invariant
            rest != 0,
            count + low_zeros(rest as nat) == low_zeros(word as nat),
            count + bit_length(rest as nat) == bit_length(word as nat),
            bit_length(word as nat) <= 16,
        decreases rest,
    {
        count = count + 1;
        rest = rest / 2;
    }
    count
}

/// Reduces 64 random bits to a word in `0..=upper_bound`.
pub fn reduce(entropy: u64, upper_bound: u16) -> (value: u16)
    ensures
        value == spec_reduce(entropy, upper_bound),
        value <= upper_bound,
{
    let modulus: u64 = upper_bound as u64 + 1;
    proof {
        lemma_mod_bound(entropy as int, modulus as int);
    }
    (entropy % modulus) as u16
}

/// Shifts `source` left by `amount` bits, filling with zeros.
pub fn shift_left(source: u16, amount: u16) -> (word: u16)
    ensures
        word == spec_shift_left(source, amount),
{
    if amount >= 16 {
        0
    } else {
        source << amount
    }
}

/// Shifts `source` right by `amount` bits, filling with zeros.
pub fn shift_right_logical(source: u16, amount: u16) -> (word: u16)
    ensures
        word == spec_shift_right_logical(source, amount),
{
    if amount >= 16 {
        0
    } else {
        source >> amount
    }
}

/// Shifts `source` right by `amount` bits, filling with copies of its sign bit.
pub fn shift_right_arithmetic(source: u16, amount: u16) -> (word: u16)
    ensures
        word == spec_shift_right_arithmetic(source, amount),
{
    if amount >= 16 {
        if source >= 0x8000 {
            0xFFFF
        } else {
            0
        }
    } else if source >= 0x8000 {
        !((!source) >> amount)
    } else {
        source >> amount
    }
}

/// Absolute value of the signed reading of `word`, as an unsigned number.
fn magnitude(word: u16) -> (size: u32)
    ensures
        size == if signed(word) >= 0 { signed(word) } else { -signed(word) },
        size <= 0x8000,
{
    if word < 0x8000 {
        word as u32
    } else {
        0x1_0000 - word as u32
    }
}

/// The word whose signed reading is `size`, negated where `negative` is set.
/// The one number that does not fit, +32768, wraps to -32768.
fn from_magnitude(size: u32, negative: bool) -> (word: u16)
    requires
        size <= 0x8000,
    ensures
        word == wrap(if negative { -(size as int) } else { size as int }),
{
    if size == 0 {
        0
    } else if negative {
        (0x1_0000 - size) as u16
    } else {
        size as u16
    }
}

/// Signed division rounded towards zero. Division by zero gives the highest
/// signed value, and -32768 / -1 wraps to -32768.
pub fn divide_signed(source: u16, destination: u16) -> (word: u16)
    ensures
        spec_binary(0x5, source, destination) == Some(word),
{
    if destination == 0 {
        return 0x7FFF;
    }
    let a: u32 = magnitude(source);
    let b: u32 = magnitude(destination);
    let quotient: u32 = a / b;
    proof {
        lemma_div_pos_is_pos(a as int, b as int);
        lemma_div_is_ordered_by_denominator(a as int, 1, b as int);
        lemma_div_basics_2(a as int);
    }
    from_magnitude(quotient, (source >= 0x8000) != (destination >= 0x8000))
}

/// Signed remainder with the sign of the dividend. The remainder of a
/// division by zero is zero.
pub fn remainder_signed(source: u16, destination: u16) -> (word: u16)
    ensures
        spec_binary(0x7, source, destination) == Some(word),
{
    if destination == 0 {
        return 0;
    }
    let a: u32 = magnitude(source);
    let b: u32 = magnitude(destination);
    let remainder: u32 = a % b;
    proof {
        lemma_mod_bound(a as int, b as int);
    }
    from_magnitude(remainder, source >= 0x8000)
}

/// Computes the unary function that `function` selects.
pub fn unary(function: u16, source: u16, entropy: u64) -> (value: Option<u16>)
    ensures
        value == spec_unary(function, source, entropy),
{
    match function {
        0x8 => Some(source.wrapping_sub(1)),
        0x9 => Some(source.wrapping_add(1)),
        0xA => Some(!source),
        0xB => Some(count_ones(source)),
        0xC => Some(leading_zeros(source)),
        0xD => Some(trailing_zeros(source)),
        0xE => Some(reduce(entropy, source)),
        0xF => Some(source),
        _ => None,
    }
}

/// Computes the binary function that `function` selects, with the source as
/// its first and the destination as its second argument.
pub fn binary(function: u16, source: u16, destination: u16) -> (value: Option<u16>)
    ensures
        value == spec_binary(function, source, destination),
{
    match function {
        0x0 => Some(source.wrapping_add(destination)),
        0x1 => Some(source.wrapping_sub(destination)),
        0x2 => {
            proof {
                lemma_product_bound(source, destination);
            }
            let product: u32 = source as u32 * destination as u32;
            Some((product % 0x1_0000) as u16)
        },
        0x3 => {
            proof {
                lemma_product_bound(source, destination);
            }
            let product: u32 = source as u32 * destination as u32;
            Some((product / 0x1_0000) as u16)
        },
        0x4 => Some(
            if destination == 0 {
                0xFFFF
            } else {
                source / destination
            },
        ),
        0x5 => Some(divide_signed(source, destination)),
        0x6 => Some(
            if destination == 0 {
                0
            } else {
                source % destination
            },
        ),
        0x7 => Some(remainder_signed(source, destination)),
        0x8 => Some(source & destination),
        0x9 => Some(source | destination),
        0xA => Some(source ^ destination),
        0xB => Some(shift_left(source, destination)),
        0xC => Some(shift_right_logical(source, destination)),
        0xD => Some(shift_right_arithmetic(source, destination)),
        _ => None,
    }
}

/// Decides the comparison that `flags` selects between `lhs` and `rhs`.
pub fn compare(flags: u16, lhs: u16, rhs: u16) -> (holds: bool)
    requires
        flags < 16,
    ensures
        holds == spec_compare(flags, lhs, rhs),
{
    let less: bool = (flags / 8) % 2 == 1;
    let equal: bool = (flags / 4) % 2 == 1;
    let greater: bool = (flags / 2) % 2 == 1;
    let as_signed: bool = flags % 2 == 1;
    let flip: u16 = if as_signed {
        0x8000
    } else {
        0
    };
    let a: u16 = if lhs >= 0x8000 {
        lhs - flip
    } else {
        lhs + flip
    };
    let b: u16 = if rhs >= 0x8000 {
        rhs - flip
    } else {
        rhs + flip
    };
    (less && a < b) || (equal && a == b) || (greater && a > b)
}

} // verus!
