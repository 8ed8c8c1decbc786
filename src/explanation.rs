//! Markup that explains how a binary digit string adds up to its value:
//! one card per digit, then the sum.

use crate::decimal::{canonical, digits_value, double_plus, lemma_canonical_text, push_digits};
use crate::numeral::{
    binary_parse, bit_value, decimal_digits, decimal_text, lemma_place_value_push, lemma_pow2_zero,
    place_value, push_char, push_decimal,
};
use vstd::arithmetic::power2::*;
use vstd::prelude::*;

verus! {

/// Opens the container that holds the cards and the sum.
pub const CONTAINER_OPEN: &'static str = "<div class='viz-container'>";

/// Closes the container.
pub const CONTAINER_CLOSE: &'static str = "</div>";

/// Opens a bit card; the card's style class follows.
pub const CARD_OPEN: &'static str = "\n            <div class='";

/// Style class of a card whose digit is `'1'`.
pub const CARD_ACTIVE: &'static str = "card active";

/// Style class of a card whose digit is anything else.
pub const CARD_DIM: &'static str = "card dim";

/// Between the style class and the digit.
pub const CARD_BIT: &'static str = "'>\n                <div class='bit'>";

/// Between the digit and the exponent.
pub const CARD_MATH: &'static str = "</div>\n                <div class='math'>2<sup>";

/// Between the exponent and the contribution.
pub const CARD_RESULT: &'static str = "</sup></div>\n                <div class='result'>+ ";

/// Closes a bit card.
pub const CARD_CLOSE: &'static str = "</div>\n            </div>\n            ";

/// The equals marker and the opening of the sum card, up to the total.
pub const SUM_OPEN: &'static str =
    "\n        <div class='equals-item'>=</div>\n        <div class='card total'>\n            <div class='bit'>&Sigma;</div>\n            <div class='math'>Sum</div>\n            <div class='result'>";

/// Closes the sum card.
pub const SUM_CLOSE: &'static str = "</div>\n        </div>\n        ";

/// The card for digit `c` at bit index `k` (zero for the rightmost digit): the
/// digit, the exponent `k`, and the contribution `bit_value(c) * 2^k`.
pub open spec fn card_markup(c: char, k: nat) -> Seq<char> {
    CARD_OPEN@ + (if c == '1' {
        CARD_ACTIVE@
    } else {
        CARD_DIM@
    }) + CARD_BIT@ + seq![c] + CARD_MATH@ + decimal_digits(k) + CARD_RESULT@ + decimal_digits(
        bit_value(c) * pow2(k),
    ) + CARD_CLOSE@
}

/// The cards of `s` from left to right, so the most significant digit comes first.
pub open spec fn cards_markup(s: Seq<char>) -> Seq<char>
    decreases s.len(),
{
    if s.len() == 0 {
        Seq::empty()
    } else {
        card_markup(s[0], (s.len() - 1) as nat) + cards_markup(s.drop_first())
    }
}

/// What `render_explanation(s)` returns. The total is the sum of the cards'
/// contributions, which `place_value` adds up.
pub open spec fn explanation_markup(s: Seq<char>) -> Seq<char> {
    CONTAINER_OPEN@ + cards_markup(s) + SUM_OPEN@ + decimal_digits(place_value(s)) + SUM_CLOSE@
        + CONTAINER_CLOSE@
}

fn push_card(cards: &mut String, c: char, k: usize, contribution: &Vec<u8>)
    requires
        canonical(contribution@),
        digits_value(contribution@) == bit_value(c) * pow2(k as nat),
    ensures
        final(cards)@ == old(cards)@ + card_markup(c, k as nat),
{
    proof {
        lemma_canonical_text(contribution@);
    }
    cards.append(CARD_OPEN);
    if c == '1' {
        cards.append(CARD_ACTIVE);
    } else {
        cards.append(CARD_DIM);
    }
    cards.append(CARD_BIT);
    push_char(cards, c);
    cards.append(CARD_MATH);
    push_decimal(cards, k as u64);
    cards.append(CARD_RESULT);
    push_digits(cards, contribution);
    cards.append(CARD_CLOSE);
    assert(cards@ =~= old(cards)@ + card_markup(c, k as nat));
}

/// The digits of `2^k` for each `k` below `n`, at index `k`.
fn powers_of_two(n: usize) -> (powers: Vec<Vec<u8>>)
    ensures
        powers@.len() == n,
        forall|k: int|
            0 <= k < n ==> canonical(#[trigger] powers@[k]@) && digits_value(powers@[k]@)
                == pow2(k as nat),
{
    let mut powers: Vec<Vec<u8>> = Vec::new();
    let mut p: Vec<u8> = Vec::new();
    p.push(1);
    proof {
        lemma_pow2_zero();
        assert(p@[0] == 1);
        assert(p@.drop_first() =~= Seq::<u8>::empty());
        assert(digits_value(p@.drop_first()) == 0);
        assert(digits_value(p@) == 1);
    }
    while powers.len() < n
        invariant
            powers@.len() <= n,
            canonical(p@),
            digits_value(p@) == pow2(powers@.len() as nat),
            forall|k: int|
                0 <= k < powers@.len() ==> canonical(#[trigger] powers@[k]@) && digits_value(
                    powers@[k]@,
                ) == pow2(k as nat),
        decreases n - powers@.len(),
    {
        let next = double_plus(&p, 0);
        proof {
            lemma_pow2_unfold((powers@.len() + 1) as nat);
        }
        powers.push(p);
        p = next;
    }
    powers
}

/// Renders one card per character of `input`, most significant first, and the
/// sum of their contributions. Characters other than `'1'` count as zero.
/// Place values and the sum are carried as base-ten digits, so any length works.
pub fn render_explanation(input: &str) -> (r: String)
    ensures
        r@ == explanation_markup(input@),
{
    let n = input.unicode_len();
    let powers = powers_of_two(n);
    let mut zero: Vec<u8> = Vec::new();
    zero.push(0);
    let mut total: Vec<u8> = Vec::new();
    total.push(0);
    let mut cards = String::new();
    let mut idx: usize = 0;
    proof {
        assert(zero@[0] == 0 && total@[0] == 0);
        assert(zero@.drop_first() =~= Seq::<u8>::empty());
        assert(total@.drop_first() =~= Seq::<u8>::empty());
        assert(digits_value(zero@.drop_first()) == 0);
        assert(digits_value(total@.drop_first()) == 0);
        assert(digits_value(zero@) == 0 && digits_value(total@) == 0);
        assert(input@.skip(0) =~= input@);
        assert(input@.take(0) =~= Seq::<char>::empty());
    }
    for c in it: input.chars()
        invariant
            it.seq() == input@,
            idx == it.index(),
            n == input@.len(),
            powers@.len() == n,
            forall|k: int|
                0 <= k < n ==> canonical(#[trigger] powers@[k]@) && digits_value(powers@[k]@)
                    == pow2(k as nat),
            canonical(zero@),
            digits_value(zero@) == 0,
            canonical(total@),
            digits_value(total@) == place_value(input@.take(idx as int)),
            cards@ + cards_markup(input@.skip(idx as int)) == cards_markup(input@),
    {
        let ghost j = idx as int;
        let ghost rest = input@.skip(j);
        assert(c == input@[j]);
        assert(rest.drop_first() =~= input@.skip(j + 1));
        assert(rest[0] == c);
        let k = n - 1 - idx;
        let ghost before = cards@;
        if c == '1' {
            assert(canonical(powers@[k as int]@));
            assert(digits_value(powers@[k as int]@) == bit_value(c) * pow2(k as nat));
            push_card(&mut cards, c, k, &powers[k]);
        } else {
            push_card(&mut cards, c, k, &zero);
        }
        proof {
            assert(k as nat == (rest.len() - 1) as nat);
            assert(cards_markup(rest) == card_markup(c, k as nat) + cards_markup(
                input@.skip(j + 1),
            ));
            assert(before + cards_markup(rest) =~= cards@ + cards_markup(input@.skip(j + 1)));
            assert(input@.take(j + 1) =~= input@.take(j).push(c));
            lemma_place_value_push(input@.take(j), c);
        }
        let bit: u8 = if c == '1' {
            1
        } else {
            0
        };
        total = double_plus(&total, bit);
        idx = idx + 1;
    }
    proof {
        assert(input@.take(n as int) =~= input@);
        lemma_canonical_text(total@);
    }
    let mut out = String::from_str(CONTAINER_OPEN);
    out.append(cards.as_str());
    out.append(SUM_OPEN);
    push_digits(&mut out, &total);
    out.append(SUM_CLOSE);
    out.append(CONTAINER_CLOSE);
    out
}

/// For a string that `binary_to_decimal` accepts, the sum that the explanation
/// shows is exactly the text that `binary_to_decimal` returns.
pub proof fn lemma_explanation_total_is_decoded_value(s: Seq<char>)
    requires
        binary_parse(s) is Ok,
    ensures
        explanation_markup(s) == CONTAINER_OPEN@ + cards_markup(s) + SUM_OPEN@ + decimal_text(s)
            + SUM_CLOSE@ + CONTAINER_CLOSE@,
{
}

} // verus!
