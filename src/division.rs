//! Markup that explains repeated division by two: one step card per division,
//! whose remainders, read top to bottom, are the binary digits from the least
//! significant.

use crate::numeral::{decimal_digits, push_decimal};
use vstd::prelude::*;

verus! {

/// The fixed step shown for zero, in place of the division loop.
pub const ZERO_STEP: &'static str = "<div class='step-card'>0 / 2 = 0 (Rem: <b>0</b>)</div>";

/// Opens the container of the steps.
pub const STEPS_OPEN: &'static str = "<div class='steps-container'>";

/// Opens a step card, up to the dividend.
pub const STEP_OPEN: &'static str =
    "\n            <div class='step-card'>\n                <div class='calc'>";

/// Between the dividend and the quotient.
pub const STEP_DIVIDE: &'static str = " \u{f7} 2 = ";

/// Between the quotient and the remainder.
pub const STEP_REMAINDER: &'static str =
    "</div>\n                <div class='rem'>Rem: <span class='bit-highlight'>";

/// Closes a step card.
pub const STEP_CLOSE: &'static str = "</span></div>\n            </div>\n            ";

/// The footer after the steps; it also closes the container.
pub const INSTRUCTION: &'static str =
    "<div class='instruction'>read remainders top to bottom to get binary</div></div>";

/// The card for dividing `n` by two: the dividend, the quotient and the remainder.
pub open spec fn step_markup(n: nat) -> Seq<char> {
    STEP_OPEN@ + decimal_digits(n) + STEP_DIVIDE@ + decimal_digits(n / 2) + STEP_REMAINDER@
        + decimal_digits(n % 2) + STEP_CLOSE@
}

/// The cards of the divisions from `n` down to one, in the order they are made.
pub open spec fn steps_markup(n: nat) -> Seq<char>
    decreases n,
{
    if n == 0 {
        Seq::empty()
    } else {
        step_markup(n) + steps_markup(n / 2)
    }
}

/// What `render_decimal_viz(n)` returns: the steps container holding the steps
/// and the footer. Zero has its fixed step; a negative number has no steps.
pub open spec fn division_markup(n: i32) -> Seq<char> {
    if n == 0 {
        STEPS_OPEN@ + ZERO_STEP@ + INSTRUCTION@
    } else if n > 0 {
        STEPS_OPEN@ + steps_markup(n as nat) + INSTRUCTION@
    } else {
        STEPS_OPEN@ + INSTRUCTION@
    }
}

fn push_step(steps: &mut String, n: u32)
    ensures
        final(steps)@ == old(steps)@ + step_markup(n as nat),
{
    steps.append(STEP_OPEN);
    push_decimal(steps, n as u64);
    steps.append(STEP_DIVIDE);
    push_decimal(steps, (n / 2) as u64);
    steps.append(STEP_REMAINDER);
    push_decimal(steps, (n % 2) as u64);
    steps.append(STEP_CLOSE);
    assert(steps@ =~= old(steps)@ + step_markup(n as nat));
}

/// Renders the steps of dividing `num` by two until the quotient is zero,
/// then the footer.
pub fn render_decimal_viz(num: i32) -> (r: String)
    ensures
        r@ == division_markup(num),
{
    let mut out = String::from_str(STEPS_OPEN);
    if num == 0 {
        out.append(ZERO_STEP);
        out.append(INSTRUCTION);
        return out;
    }
    let mut current = num;
    while current > 0
        invariant
            num != 0,
            current >= 0 || current == num,
            out@ + (if current > 0 {
                steps_markup(current as nat)
            } else {
                Seq::empty()
            }) == STEPS_OPEN@ + (if num > 0 {
                steps_markup(num as nat)
            } else {
                Seq::empty()
            }),
        decreases current,
    {
        let ghost before = out@;
        push_step(&mut out, current as u32);
        let quotient = current / 2;
        assert(steps_markup(current as nat) == step_markup(current as nat) + steps_markup(
            quotient as nat,
        ));
        assert(quotient == 0 ==> steps_markup(quotient as nat) == Seq::<char>::empty());
        assert(before + steps_markup(current as nat) =~= out@ + (if quotient > 0 {
            steps_markup(quotient as nat)
        } else {
            Seq::empty()
        }));
        current = quotient;
    }
    out.append(INSTRUCTION);
    out
}

} // verus!
