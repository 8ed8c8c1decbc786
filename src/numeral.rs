//! Digit strings: how a number is written in base two and base ten.

use vstd::arithmetic::power::pow;
use vstd::arithmetic::power2::*;
use vstd::prelude::*;

verus! {

/// The character that writes the digit `d` (a value below ten).
pub open spec fn digit_char(d: nat) -> char {
    if d == 0 {
        '0'
    } else if d == 1 {
        '1'
    } else if d == 2 {
        '2'
    } else if d == 3 {
        '3'
    } else if d == 4 {
        '4'
    } else if d == 5 {
        '5'
    } else if d == 6 {
        '6'
    } else if d == 7 {
        '7'
    } else if d == 8 {
        '8'
    } else {
        '9'
    }
}

/// `n` written in base ten, most significant digit first, without leading zeros.
pub open spec fn decimal_digits(n: nat) -> Seq<char>
    decreases n,
{
    if n < 10 {
        seq![digit_char(n)]
    } else {
        decimal_digits(n / 10).push(digit_char(n % 10))
    }
}

/// `n` written in base two, most significant digit first, without leading zeros.
pub open spec fn binary_digits(n: nat) -> Seq<char>
    decreases n,
{
    if n < 2 {
        seq![digit_char(n)]
    } else {
        binary_digits(n / 2).push(digit_char(n % 2))
    }
}

/// A character that is a binary digit.
pub open spec fn is_bit(c: char) -> bool {
    c == '0' || c == '1'
}

/// What a character adds at its position: one for `'1'`, zero for anything else.
pub open spec fn bit_value(c: char) -> nat {
    if c == '1' {
        1
    } else {
        0
    }
}

/// The positional value of a digit string read in base two: each character
/// contributes `bit_value(c) * 2^k`, where `k` counts the characters to its right.
pub open spec fn place_value(s: Seq<char>) -> nat
    decreases s.len(),
{
    if s.len() == 0 {
        0
    } else {
        bit_value(s[0]) * pow2((s.len() - 1) as nat) + place_value(s.drop_first())
    }
}

/// Relies on `String::push`: the character is appended at the end.
#[verifier::external_body]
pub(crate) fn push_char(s: &mut String, c: char)
    ensures
        final(s)@ == old(s)@.push(c),
{
    s.push(c)
}

pub(crate) fn digit_to_char(d: u32) -> (c: char)
    requires
        d < 10,
    ensures
        c == digit_char(d as nat),
{
    match d {
        0 => '0',
        1 => '1',
        2 => '2',
        3 => '3',
        4 => '4',
        5 => '5',
        6 => '6',
        7 => '7',
        8 => '8',
        _ => '9',
    }
}

/// Appends `n` in base ten.
pub(crate) fn push_decimal(out: &mut String, n: u64)
    ensures
        final(out)@ == old(out)@ + decimal_digits(n as nat),
    decreases n,
{
    if n >= 10 {
        push_decimal(out, n / 10);
    }
    push_char(out, digit_to_char((n % 10) as u32));
}

/// Appends `n` in base two.
pub(crate) fn push_binary(out: &mut String, n: u32)
    ensures
        final(out)@ == old(out)@ + binary_digits(n as nat),
    decreases n,
{
    if n >= 2 {
        push_binary(out, n / 2);
    }
    push_char(out, digit_to_char(n % 2));
}

/// Appending one character to the right doubles the value and adds the new bit.
pub proof fn lemma_place_value_push(s: Seq<char>, c: char)
    ensures
        place_value(s.push(c)) == 2 * place_value(s) + bit_value(c),
    decreases s.len(),
{
    if s.len() > 0 {
        let t = s.push(c);
        assert(t.drop_first() =~= s.drop_first().push(c));
        assert(t[0] == s[0]);
        assert(place_value(t) == bit_value(s[0]) * pow2(s.len()) + place_value(t.drop_first()));
        lemma_place_value_push(s.drop_first(), c);
        lemma_pow2_unfold(s.len());
        assert(bit_value(s[0]) * pow2(s.len()) == 2 * (bit_value(s[0]) * pow2(
            (s.len() - 1) as nat,
        ))) by (nonlinear_arith)
            requires
                pow2(s.len()) == 2 * pow2((s.len() - 1) as nat),
        ;
    } else {
        assert(s.push(c).drop_first() =~= s);
        lemma_pow2_zero();
        assert(place_value(s.push(c)) == bit_value(c) * pow2(0) + place_value(s));
    }
}

pub proof fn lemma_pow2_zero()
    ensures
        pow2(0) == 1,
{
    reveal(pow);
}

/// A prefix never has a larger value than the whole string.
pub proof fn lemma_place_value_prefix(s: Seq<char>, j: int)
    requires
        0 <= j <= s.len(),
    ensures
        place_value(s.take(j)) <= place_value(s),
    decreases s.len() - j,
{
    if j < s.len() {
        assert(s.take(j + 1) =~= s.take(j).push(s[j]));
        lemma_place_value_push(s.take(j), s[j]);
        lemma_place_value_prefix(s, j + 1);
    } else {
        assert(s.take(j) =~= s);
    }
}


/// Why a string is not read as a binary numeral.
#[derive(Clone, Copy, Debug, PartialEq, Eq, Structural)]
pub enum BinaryError {
    /// The string has no characters.
    Empty,
    /// Some character is neither `'0'` nor `'1'`.
    InvalidDigit,
    /// The digits are valid, but the value exceeds `i32::MAX`.
    Overflow,
}

/// Every character of `s` is a binary digit.
pub open spec fn all_bits(s: Seq<char>) -> bool {
    forall|i: int| 0 <= i < s.len() ==> is_bit(#[trigger] s[i])
}

/// What reading `s` as a base-two numeral gives: its value, or why it has none.
/// The first failing check decides: emptiness, then digits, then range.
pub open spec fn binary_parse(s: Seq<char>) -> Result<i32, BinaryError> {
    if s.len() == 0 {
        Err(BinaryError::Empty)
    } else if !all_bits(s) {
        Err(BinaryError::InvalidDigit)
    } else if place_value(s) > i32::MAX {
        Err(BinaryError::Overflow)
    } else {
        Ok(place_value(s) as i32)
    }
}

proof fn lemma_all_bits_push(s: Seq<char>, c: char)
    ensures
        all_bits(s.push(c)) <==> all_bits(s) && is_bit(c),
{
    let t = s.push(c);
    assert(t[s.len() as int] == c);
    if all_bits(t) {
        assert forall|i: int| 0 <= i < s.len() implies is_bit(#[trigger] s[i]) by {
            assert(t[i] == s[i]);
        }
    }
    if all_bits(s) && is_bit(c) {
        assert forall|i: int| 0 <= i < t.len() implies is_bit(#[trigger] t[i]) by {
            if i < s.len() {
                assert(t[i] == s[i]);
            }
        }
    }
}

/// Reads `input` as a base-two numeral that fits in an `i32`.
pub fn parse_binary(input: &str) -> (r: Result<i32, BinaryError>)
    ensures
        r == binary_parse(input@),
{
    let mut valid = true;
    for c in it: input.chars()
        invariant
            it.seq() == input@,
            valid <==> all_bits(input@.take(it.index() as int)),
    {
        let ghost k = it.index() as int;
        assert(c == input@[k]);
        assert(input@.take(k + 1) =~= input@.take(k).push(c));
        proof {
            lemma_all_bits_push(input@.take(k), c);
        }
        if c != '0' && c != '1' {
            valid = false;
        }
    }
    assert(input@.take(input@.len() as int) =~= input@);
    if input.is_empty() {
        return Err(BinaryError::Empty);
    }
    if !valid {
        return Err(BinaryError::InvalidDigit);
    }
    let mut value: u32 = 0;
    for c in it: input.chars()
        invariant
            it.seq() == input@,
            all_bits(input@),
            value as nat == place_value(input@.take(it.index() as int)),
            value <= i32::MAX,
    {
        let ghost k = it.index() as int;
        assert(c == input@[k]);
        assert(input@.take(k + 1) =~= input@.take(k).push(c));
        proof {
            lemma_place_value_push(input@.take(k), c);
            lemma_place_value_prefix(input@, k + 1);
        }
        let bit: u32 = if c == '1' {
            1
        } else {
            0
        };
        if value > (i32::MAX as u32 - bit) / 2 {
            return Err(BinaryError::Overflow);
        }
        value = 2 * value + bit;
    }
    assert(input@.take(input@.len() as int) =~= input@);
    Ok(value as i32)
}


/// The bit pattern of `n` as an unsigned 32-bit value: `n` itself when it is
/// non-negative, `n + 2^32` (its two's complement) when it is negative.
pub open spec fn unsigned_pattern(n: i32) -> nat {
    if n >= 0 {
        n as nat
    } else {
        (n + 0x1_0000_0000) as nat
    }
}

/// What `decimal_to_binary(n)` returns.
pub open spec fn binary_text(n: i32) -> Seq<char> {
    binary_digits(unsigned_pattern(n))
}

/// What `binary_to_decimal(s)` returns: the value in base ten, or the
/// fixed failure text.
pub open spec fn decimal_text(s: Seq<char>) -> Seq<char> {
    match binary_parse(s) {
        Ok(v) => decimal_digits(v as nat),
        Err(_) => "Invalid Binary"@,
    }
}

/// Writes `num` in base two. A negative number is written as its 32-bit
/// two's complement pattern.
pub fn decimal_to_binary(num: i32) -> (r: String)
    ensures
        r@ == binary_text(num),
{
    let pattern: u32 = if num >= 0 {
        num as u32
    } else {
        (num as i64 + 0x1_0000_0000) as u32
    };
    let mut out = String::new();
    push_binary(&mut out, pattern);
    out
}

/// Reads `input` as a base-two numeral and writes its value in base ten;
/// returns `"Invalid Binary"` where `parse_binary` fails.
pub fn binary_to_decimal(input: &str) -> (r: String)
    ensures
        r@ == decimal_text(input@),
{
    match parse_binary(input) {
        Ok(v) => {
            let mut out = String::new();
            push_decimal(&mut out, v as u64);
            out
        },
        Err(_) => String::from_str("Invalid Binary"),
    }
}


proof fn lemma_binary_digits_value(m: nat)
    ensures
        binary_digits(m).len() > 0,
        all_bits(binary_digits(m)),
        place_value(binary_digits(m)) == m,
    decreases m,
{
    let d = binary_digits(m);
    if m < 2 {
        assert(d =~= Seq::<char>::empty().push(digit_char(m)));
        lemma_place_value_push(Seq::<char>::empty(), digit_char(m));
        lemma_all_bits_push(Seq::<char>::empty(), digit_char(m));
    } else {
        lemma_binary_digits_value(m / 2);
        lemma_place_value_push(binary_digits(m / 2), digit_char(m % 2));
        lemma_all_bits_push(binary_digits(m / 2), digit_char(m % 2));
    }
}

/// Writing a non-negative number in base two and reading the digits back
/// gives the number itself, in base ten.
pub proof fn lemma_round_trip(n: i32)
    requires
        n >= 0,
    ensures
        decimal_text(binary_text(n)) == decimal_digits(n as nat),
{
    lemma_binary_digits_value(n as nat);
}

} // verus!
