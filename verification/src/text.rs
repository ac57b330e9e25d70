//! Numbers as text: decimal and hexadecimal digits, and padding.

use vstd::prelude::*;

verus! {

/// `String::push` of the standard library appends the one character to the
/// end of the string and leaves what stood there before.
pub assume_specification[ String::push ](text: &mut String, ch: char)
    ensures
        final(text)@ == old(text)@.push(ch),
;

/// The character for a digit from 0 to 15, with capital letters from 10 on.
pub open spec fn digit_char(digit: int) -> char {
    if digit == 0 {
        '0'
    } else if digit == 1 {
        '1'
    } else if digit == 2 {
        '2'
    } else if digit == 3 {
        '3'
    } else if digit == 4 {
        '4'
    } else if digit == 5 {
        '5'
    } else if digit == 6 {
        '6'
    } else if digit == 7 {
        '7'
    } else if digit == 8 {
        '8'
    } else if digit == 9 {
        '9'
    } else if digit == 10 {
        'A'
    } else if digit == 11 {
        'B'
    } else if digit == 12 {
        'C'
    } else if digit == 13 {
        'D'
    } else if digit == 14 {
        'E'
    } else {
        'F'
    }
}

/// The decimal digits of `n`, without leading zeros; one zero for zero.
pub open spec fn decimal(n: nat) -> Seq<char>
    decreases n,
{
    if n < 10 {
        seq![digit_char(n as int)]
    } else {
        decimal(n / 10).push(digit_char((n % 10) as int))
    }
}

/// `count` spaces.
pub open spec fn spaces(count: nat) -> Seq<char> {
    Seq::new(count, |i: int| ' ')
}

/// The decimal digits of `n`, with spaces before them up to `width`
/// characters; a number with more digits is not cut.
pub open spec fn padded_decimal(n: nat, width: nat) -> Seq<char> {
    if decimal(n).len() >= width {
        decimal(n)
    } else {
        spaces((width - decimal(n).len()) as nat) + decimal(n)
    }
}

/// The four hexadecimal digits of a word, capital letters.
pub open spec fn hex_word(word: u16) -> Seq<char> {
    seq![
        digit_char(word as int / 0x1000),
        digit_char((word as int / 0x100) % 0x10),
        digit_char((word as int / 0x10) % 0x10),
        digit_char(word as int % 0x10),
    ]
}

/// The character for one digit.
pub fn digit(value: u8) -> (ch: char)
    requires
        value < 16,
    ensures
        ch == digit_char(value as int),
{
    match value {
        0 => '0',
        1 => '1',
        2 => '2',
        3 => '3',
        4 => '4',
        5 => '5',
        6 => '6',
        7 => '7',
        8 => '8',
        9 => '9',
        10 => 'A',
        11 => 'B',
        12 => 'C',
        13 => 'D',
        14 => 'E',
        _ => 'F',
    }
}

/// Number of decimal digits of `n`.
pub fn decimal_len(n: u64) -> (len: usize)
    ensures
        len == decimal(n as nat).len(),
        1 <= len <= 20,
    decreases n,
{
    if n < 10 {
        1
    } else {
        let shorter = decimal_len(n / 10);
        proof {
            lemma_decimal_len_bound(n as nat);
        }
        shorter + 1
    }
}

/// A 64-bit number has at most 20 decimal digits.
pub proof fn lemma_decimal_len_bound(n: nat)
    requires
        n <= u64::MAX,
    ensures
        1 <= decimal(n).len() <= 20,
{
    reveal_with_fuel(decimal, 21);
}

/// Appends the decimal digits of `n` to `text`.
pub fn push_decimal(text: &mut String, n: u64)
    ensures
        final(text)@ == old(text)@ + decimal(n as nat),
    decreases n,
{
    if n >= 10 {
        push_decimal(text, n / 10);
    }
    text.push(digit((n % 10) as u8));
    assert(text@ =~= old(text)@ + decimal(n as nat));
}

/// Appends the decimal digits of `n` to `text`, after as many spaces as it
/// takes to fill `width` characters.
pub fn push_padded_decimal(text: &mut String, n: u64, width: usize)
    ensures
        final(text)@ == old(text)@ + padded_decimal(n as nat, width as nat),
{
    let len = decimal_len(n);
    let mut i: usize = len;
    while i < width
        invariant
            len <= i,
            i <= width || i == len,
            text@ == old(text)@ + spaces((i - len) as nat),
        decreases width - i,
    {
        text.push(' ');
        i = i + 1;
        assert(text@ =~= old(text)@ + spaces((i - len) as nat));
    }
    push_decimal(text, n);
    assert(text@ =~= old(text)@ + padded_decimal(n as nat, width as nat));
}

/// Appends the four hexadecimal digits of `word` to `text`.
pub fn push_hex_word(text: &mut String, word: u16)
    ensures
        final(text)@ == old(text)@ + hex_word(word),
{
    text.push(digit((word / 0x1000) as u8));
    text.push(digit(((word / 0x100) % 0x10) as u8));
    text.push(digit(((word / 0x10) % 0x10) as u8));
    text.push(digit((word % 0x10) as u8));
    assert(text@ =~= old(text)@ + hex_word(word));
}

} // verus!
