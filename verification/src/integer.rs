//! Two-adic integers and the integers: each two-adic integer stands for one
//! integer, and each integer is written as one two-adic integer.

use crate::bit::Bit;
use crate::digits::{
    digit_of_int, lemma_number_bound, lemma_number_halves, lemma_pow2_zero, low_digit, number,
};
use crate::repr::{lemma_first_is_twos_complement, TwoAdicView};
use vstd::arithmetic::power2::{lemma_pow2_strictly_increases, lemma_pow2_unfold, pow2};
use vstd::math::abs;
use vstd::prelude::*;

verus! {

/// The binary digits of `v`, least significant first, below the last digit
/// that differs from its sign: none for the integers from -2 to 1.
pub open spec fn kept_digits(v: int) -> Seq<Bit>
    decreases abs(v),
{
    if -2 <= v <= 1 {
        Seq::empty()
    } else {
        seq![low_digit(v)] + kept_digits(v / 2)
    }
}

impl TwoAdicView {
    /// The two-adic integer that stands for `v`.
    pub open spec fn from_int(v: int) -> TwoAdicView {
        if v <= -2 {
            TwoAdicView::OI(kept_digits(v))
        } else if v == -1 {
            TwoAdicView::II
        } else if v == 0 {
            TwoAdicView::OO
        } else {
            TwoAdicView::IO(kept_digits(v))
        }
    }

    /// The expansion without its lowest digit.
    pub open spec fn halve(self) -> TwoAdicView {
        match self {
            TwoAdicView::OI(prefix) => if prefix.len() == 0 {
                TwoAdicView::II
            } else {
                TwoAdicView::OI(prefix.drop_first())
            },
            TwoAdicView::II => TwoAdicView::II,
            TwoAdicView::OO => TwoAdicView::OO,
            TwoAdicView::IO(prefix) => if prefix.len() == 0 {
                TwoAdicView::OO
            } else {
                TwoAdicView::IO(prefix.drop_first())
            },
        }
    }
}

/// Dropping the lowest digit halves the integer, rounding down, and the
/// dropped digit is the integer's parity.
pub proof fn lemma_halve(x: TwoAdicView)
    ensures
        x.value() == 2 * x.halve().value() + x.bit(0).value(),
        x.halve().value() == x.value() / 2,
        x.bit(0) == low_digit(x.value()),
        forall|k: int| 0 <= k ==> x.halve().bit(k) == x.bit(k + 1),
{
    let prefix = x.prefix();
    lemma_pow2_zero();
    if prefix.len() > 0 {
        lemma_number_halves(prefix);
        lemma_pow2_unfold(prefix.len());
    }
}

/// The expansion is the integer written in two's complement: the digit at
/// every index is the integer's digit there.
pub proof fn lemma_bit_is_digit_of_value(x: TwoAdicView, index: nat)
    ensures
        x.bit(index as int) == digit_of_int(x.value(), index),
    decreases index,
{
    lemma_halve(x);
    if index > 0 {
        lemma_bit_is_digit_of_value(x.halve(), (index - 1) as nat);
    }
}

/// The two-adic integer made of an integer stands for that integer.
pub proof fn lemma_from_int_value(v: int)
    ensures
        TwoAdicView::from_int(v).value() == v,
    decreases abs(v),
{
    lemma_pow2_zero();
    if !(-2 <= v <= 1) {
        let digits = kept_digits(v);
        lemma_from_int_value(v / 2);
        assert(digits.drop_first() =~= kept_digits(v / 2));
        lemma_number_halves(digits);
        lemma_pow2_unfold(digits.len());
    }
}

/// The two-adic integer made of an integer has that integer's digits, in two's
/// complement, at every index.
pub proof fn lemma_from_int_digits(v: int, index: nat)
    ensures
        TwoAdicView::from_int(v).bit(index as int) == digit_of_int(v, index),
{
    lemma_from_int_value(v);
    lemma_bit_is_digit_of_value(TwoAdicView::from_int(v), index);
}

/// In every width that holds `v`, the first digits of the two-adic integer
/// made of `v` write `v` in two's complement of that width.
pub proof fn lemma_from_int_first(v: int, width: nat)
    requires
        width >= 1,
        -pow2((width - 1) as nat) <= v < pow2((width - 1) as nat),
    ensures
        number(TwoAdicView::from_int(v).first(width)) == (if v < 0 {
            v + pow2(width)
        } else {
            v
        }),
{
    let x = TwoAdicView::from_int(v);
    let kept = x.prefix().len();
    lemma_from_int_value(v);
    lemma_number_bound(x.prefix());
    if kept >= width {
        // So many kept digits stand for an integer outside the width.
        lemma_pow2_strictly_increases((width - 1) as nat, kept);
    }
    lemma_first_is_twos_complement(x, width);
}

/// A two-adic integer is the one made of the integer it stands for: every
/// integer is written in one way only.
pub proof fn lemma_from_int_of_value(x: TwoAdicView)
    ensures
        TwoAdicView::from_int(x.value()) == x,
    decreases x.prefix().len(),
{
    let prefix = x.prefix();
    lemma_halve(x);
    if prefix.len() > 0 {
        lemma_from_int_of_value(x.halve());
    }
}

/// Two two-adic integers that stand for the same integer are the same.
pub proof fn lemma_value_is_injective(x: TwoAdicView, y: TwoAdicView)
    requires
        x.value() == y.value(),
    ensures
        x == y,
{
    lemma_from_int_of_value(x);
    lemma_from_int_of_value(y);
}

} // verus!
