//! Non-negative integers of any size, held as base-ten digits with the least
//! significant digit first.

use crate::numeral::{decimal_digits, digit_char, digit_to_char, push_char};
use vstd::arithmetic::power::pow;
use vstd::prelude::*;

verus! {

/// Every entry is a base-ten digit.
pub open spec fn digits_ok(d: Seq<u8>) -> bool {
    forall|i: int| 0 <= i < d.len() ==> #[trigger] d[i] < 10
}

/// Digits with no leading zero (read from the most significant end), except
/// for zero itself, which is the single digit `0`.
pub open spec fn canonical(d: Seq<u8>) -> bool {
    &&& d.len() >= 1
    &&& digits_ok(d)
    &&& (d.len() == 1 || d.last() != 0)
}

/// The number the digits stand for, the first entry being the units.
pub open spec fn digits_value(d: Seq<u8>) -> nat
    decreases d.len(),
{
    if d.len() == 0 {
        0
    } else {
        d[0] as nat + 10 * digits_value(d.drop_first())
    }
}

/// The digits written out, most significant first.
pub open spec fn digits_text(d: Seq<u8>) -> Seq<char>
    decreases d.len(),
{
    if d.len() == 0 {
        Seq::empty()
    } else {
        digits_text(d.drop_first()).push(digit_char(d[0] as nat))
    }
}

proof fn lemma_digits_value_push(d: Seq<u8>, x: u8)
    ensures
        digits_value(d.push(x)) == digits_value(d) + x * pow(10, d.len()),
    decreases d.len(),
{
    reveal(pow);
    if d.len() == 0 {
        assert(d.push(x).drop_first() =~= d);
    } else {
        assert(d.push(x).drop_first() =~= d.drop_first().push(x));
        lemma_digits_value_push(d.drop_first(), x);
        assert(pow(10, d.len()) == 10 * pow(10, (d.len() - 1) as nat));
        assert(10 * (x * pow(10, (d.len() - 1) as nat)) == x * pow(10, d.len())) by (
        nonlinear_arith)
            requires
                pow(10, d.len()) == 10 * pow(10, (d.len() - 1) as nat),
        ;
    }
}

proof fn lemma_last_nonzero_positive(d: Seq<u8>)
    requires
        d.len() >= 1,
        d.last() != 0,
    ensures
        digits_value(d) >= 1,
    decreases d.len(),
{
    if d.len() > 1 {
        assert(d.drop_first().last() == d.last());
        lemma_last_nonzero_positive(d.drop_first());
    }
}

/// Canonical digits are written exactly as their value is in base ten.
pub proof fn lemma_canonical_text(d: Seq<u8>)
    requires
        canonical(d),
    ensures
        digits_text(d) == decimal_digits(digits_value(d)),
    decreases d.len(),
{
    let rest = d.drop_first();
    assert(d[0] < 10);
    if d.len() == 1 {
        assert(digits_value(rest) == 0);
        assert(digits_text(rest) =~= Seq::<char>::empty());
        assert(digits_text(d) =~= seq![digit_char(d[0] as nat)]);
    } else {
        assert(rest.last() == d.last());
        assert forall|i: int| 0 <= i < rest.len() implies #[trigger] rest[i] < 10 by {
            assert(rest[i] == d[i + 1]);
        }
        lemma_canonical_text(rest);
        lemma_last_nonzero_positive(rest);
        let v = digits_value(d);
        assert(v / 10 == digits_value(rest));
        assert(v % 10 == d[0] as nat);
    }
}

/// The digits of `2 * value(d) + bit`.
pub(crate) fn double_plus(d: &Vec<u8>, bit: u8) -> (r: Vec<u8>)
    requires
        canonical(d@),
        bit <= 1,
    ensures
        canonical(r@),
        digits_value(r@) == 2 * digits_value(d@) + bit,
{
    let mut r: Vec<u8> = Vec::new();
    let mut carry: u8 = bit;
    let mut last_sum: u8 = 0;
    let n = d.len();
    assert(d@.skip(0) =~= d@);
    proof {
        reveal(pow);
    }
    for i in 0..n
        invariant
            n == d@.len(),
            canonical(d@),
            carry <= 1,
            r@.len() == i,
            digits_ok(r@),
            2 * digits_value(d@) + bit == digits_value(r@) + pow(10, i as nat) * (carry + 2
                * digits_value(d@.skip(i as int))),
            i > 0 ==> last_sum >= 2 * d@[i - 1] && r@[i - 1] == last_sum % 10 && carry
                == last_sum / 10 && last_sum < 20,
    {
        let sum: u8 = 2 * d[i] + carry;
        let x: u8 = sum % 10;
        let ghost old_r = r@;
        let ghost old_carry = carry;
        proof {
            lemma_digits_value_push(r@, x);
            assert(d@.skip(i as int).drop_first() =~= d@.skip(i + 1));
            assert(d@.skip(i as int)[0] == d@[i as int]);
        }
        r.push(x);
        carry = sum / 10;
        last_sum = sum;
        proof {
            reveal(pow);
            let p = pow(10, i as nat);
            let rest = digits_value(d@.skip(i + 1));
            assert(pow(10, (i + 1) as nat) == 10 * p);
            assert(digits_value(d@.skip(i as int)) == d@[i as int] + 10 * rest);
            assert(p * (old_carry + 2 * (d@[i as int] + 10 * rest)) == x * p + 10 * p * (carry
                + 2 * rest)) by (nonlinear_arith)
                requires
                    sum == 2 * d@[i as int] + old_carry,
                    x == sum % 10,
                    carry == sum / 10,
            ;
            assert forall|k: int| 0 <= k < r@.len() implies #[trigger] r@[k] < 10 by {
                if k < i {
                    assert(r@[k] == old_r[k]);
                }
            }
        }
    }
    assert(d@.skip(n as int) =~= Seq::<u8>::empty());
    assert(digits_value(d@.skip(n as int)) == 0);
    if carry > 0 {
        proof {
            lemma_digits_value_push(r@, carry);
            assert(carry * pow(10, n as nat) == pow(10, n as nat) * (carry + 2 * 0)) by (
            nonlinear_arith);
        }
        r.push(carry);
    } else {
        assert(pow(10, n as nat) * (carry + 2 * 0) == 0) by (nonlinear_arith)
            requires
                carry == 0,
        ;
        assert(n > 1 ==> d@[n - 1] >= 1);
    }
    r
}

/// Appends the digits, most significant first.
pub(crate) fn push_digits(out: &mut String, d: &Vec<u8>)
    requires
        digits_ok(d@),
    ensures
        final(out)@ == old(out)@ + digits_text(d@),
{
    let mut i = d.len();
    assert(d@.skip(i as int) =~= Seq::<u8>::empty());
    while i > 0
        invariant
            i <= d@.len(),
            digits_ok(d@),
            out@ == old(out)@ + digits_text(d@.skip(i as int)),
        decreases i,
    {
        let ghost before = out@;
        assert(d@.skip(i - 1).drop_first() =~= d@.skip(i as int));
        assert(d@.skip(i - 1)[0] == d@[i - 1]);
        push_char(out, digit_to_char(d[i - 1] as u32));
        i = i - 1;
        assert(out@ =~= old(out)@ + digits_text(d@.skip(i as int)));
    }
    assert(d@.skip(0) =~= d@);
}

} // verus!
